//! The textual position form: eight `/`-separated ranks, highest first,
//! a digit for a run of empty squares and a letter per piece (uppercase
//! White, lowercase Black), then a space and the side to move.
//!
//! `fen_chars` and `fen_parse` are the mathematical writer and reader of
//! that form; the executable export and import are proved against them,
//! and `lemma_fen_round_trip` shows that reading back what was written
//! returns the position unchanged.

use vstd::prelude::*;

use crate::board::at2;
use crate::parser::ParsingErr;
use crate::piece::{Color, Piece, PieceTypes, Position};
use crate::validator::StateView;

verus! {

/// The square scan order of the text form: index `i` in `0..64` is file
/// `i % 8` on rank `7 - i / 8` (top rank first, files left to right).
pub open spec fn sq_pos(i: int) -> Position {
    Position { x: (i % 8) as usize, y: (7 - i / 8) as usize }
}

/// The letter of a piece.
pub open spec fn piece_char(c: Color, t: PieceTypes) -> char {
    match (c, t) {
        (Color::White, PieceTypes::Pawn) => 'P',
        (Color::White, PieceTypes::Knight) => 'N',
        (Color::White, PieceTypes::Bishop) => 'B',
        (Color::White, PieceTypes::Rook) => 'R',
        (Color::White, PieceTypes::Queen) => 'Q',
        (Color::White, PieceTypes::King) => 'K',
        (Color::Black, PieceTypes::Pawn) => 'p',
        (Color::Black, PieceTypes::Knight) => 'n',
        (Color::Black, PieceTypes::Bishop) => 'b',
        (Color::Black, PieceTypes::Rook) => 'r',
        (Color::Black, PieceTypes::Queen) => 'q',
        (Color::Black, PieceTypes::King) => 'k',
    }
}

/// The piece a letter names, if any.
pub open spec fn char_piece(ch: char) -> Option<(Color, PieceTypes)> {
    if ch == 'P' {
        Some((Color::White, PieceTypes::Pawn))
    } else if ch == 'N' {
        Some((Color::White, PieceTypes::Knight))
    } else if ch == 'B' {
        Some((Color::White, PieceTypes::Bishop))
    } else if ch == 'R' {
        Some((Color::White, PieceTypes::Rook))
    } else if ch == 'Q' {
        Some((Color::White, PieceTypes::Queen))
    } else if ch == 'K' {
        Some((Color::White, PieceTypes::King))
    } else if ch == 'p' {
        Some((Color::Black, PieceTypes::Pawn))
    } else if ch == 'n' {
        Some((Color::Black, PieceTypes::Knight))
    } else if ch == 'b' {
        Some((Color::Black, PieceTypes::Bishop))
    } else if ch == 'r' {
        Some((Color::Black, PieceTypes::Rook))
    } else if ch == 'q' {
        Some((Color::Black, PieceTypes::Queen))
    } else if ch == 'k' {
        Some((Color::Black, PieceTypes::King))
    } else {
        None
    }
}

/// The digit of an empty run of length `n` (meaningful for `1..=8`).
pub open spec fn digit_char(n: int) -> char {
    if n == 1 {
        '1'
    } else if n == 2 {
        '2'
    } else if n == 3 {
        '3'
    } else if n == 4 {
        '4'
    } else if n == 5 {
        '5'
    } else if n == 6 {
        '6'
    } else if n == 7 {
        '7'
    } else {
        '8'
    }
}

/// The empty-run length a digit names, if any.
pub open spec fn char_digit(ch: char) -> Option<int> {
    if ch == '1' {
        Some(1)
    } else if ch == '2' {
        Some(2)
    } else if ch == '3' {
        Some(3)
    } else if ch == '4' {
        Some(4)
    } else if ch == '5' {
        Some(5)
    } else if ch == '6' {
        Some(6)
    } else if ch == '7' {
        Some(7)
    } else if ch == '8' {
        Some(8)
    } else {
        None
    }
}

/// A character that continues a rank description.
pub open spec fn is_rank_char(ch: char) -> bool {
    char_piece(ch) is Some || char_digit(ch) is Some
}

pub open spec fn side_char(c: Color) -> char {
    if c is White {
        'w'
    } else {
        'b'
    }
}

pub open spec fn char_side(ch: char) -> Option<Color> {
    if ch == 'w' {
        Some(Color::White)
    } else if ch == 'b' {
        Some(Color::Black)
    } else {
        None
    }
}

/// `n` empty squares.
pub open spec fn rep_none(n: int) -> Seq<Option<(Color, PieceTypes)>> {
    Seq::new(n as nat, |i: int| None)
}

/// Read one rank description: consume piece letters and run digits as
/// far as they reach, yielding the squares they describe and the rest
/// of the text.
pub open spec fn dec_rank(s: Seq<char>) -> (Seq<Option<(Color, PieceTypes)>>, Seq<char>)
    decreases s.len(),
{
    if s.len() == 0 {
        (Seq::empty(), s)
    } else {
        match char_piece(s[0]) {
            Some(p) => {
                let (r, rest) = dec_rank(s.subrange(1, s.len() as int));
                (seq![Some(p)] + r, rest)
            },
            None => match char_digit(s[0]) {
                Some(n) => {
                    let (r, rest) = dec_rank(s.subrange(1, s.len() as int));
                    (rep_none(n) + r, rest)
                },
                None => (Seq::empty(), s),
            },
        }
    }
}

/// Read `k` rank descriptions separated by `/`, each of exactly eight
/// squares, leaving the rest of the text after the space that follows
/// the last rank.
pub open spec fn dec_ranks(s: Seq<char>, k: int) -> Result<
    (Seq<Option<(Color, PieceTypes)>>, Seq<char>),
    ParsingErr,
>
    decreases k,
{
    let (r, rest) = dec_rank(s);
    if k > 1 {
        if rest.len() > 0 && rest[0] == '/' {
            if r.len() != 8 {
                Err(ParsingErr::RankWidth)
            } else {
                match dec_ranks(rest.subrange(1, rest.len() as int), k - 1) {
                    Ok((r2, rest2)) => Ok((r + r2, rest2)),
                    Err(e) => Err(e),
                }
            }
        } else if rest.len() > 0 && rest[0] == ' ' {
            Err(ParsingErr::RankCount)
        } else if rest.len() > 0 {
            Err(ParsingErr::UnknownChar)
        } else {
            Err(ParsingErr::RankCount)
        }
    } else {
        if rest.len() > 0 && rest[0] == ' ' {
            if r.len() != 8 {
                Err(ParsingErr::RankWidth)
            } else {
                Ok((r, rest.subrange(1, rest.len() as int)))
            }
        } else if rest.len() > 0 && rest[0] == '/' {
            Err(ParsingErr::RankCount)
        } else if rest.len() > 0 {
            Err(ParsingErr::UnknownChar)
        } else {
            Err(ParsingErr::MissingInfo)
        }
    }
}

/// How many kings stand among the first `i` squares.
pub open spec fn count_kings(sq: Seq<Option<(Color, PieceTypes)>>, i: int) -> int
    decreases i,
{
    if i <= 0 {
        0
    } else {
        count_kings(sq, i - 1) + match sq[i - 1] {
            Some((c, t)) => if t is King {
                1int
            } else {
                0
            },
            None => 0,
        }
    }
}

/// Read a whole position: eight ranks, a king total of exactly two, and
/// the side to move, with nothing after it.
pub open spec fn fen_parse(s: Seq<char>) -> Result<
    (Seq<Option<(Color, PieceTypes)>>, Color),
    ParsingErr,
> {
    match dec_ranks(s, 8) {
        Err(e) => Err(e),
        Ok((sq, rest)) => {
            if count_kings(sq, 64) != 2 {
                Err(ParsingErr::KingCount)
            } else if rest.len() == 1 {
                match char_side(rest[0]) {
                    Some(c) => Ok((sq, c)),
                    None => Err(ParsingErr::SideToMove),
                }
            } else if rest.len() == 0 {
                Err(ParsingErr::SideToMove)
            } else if exists|i: int| 0 <= i < rest.len() && rest[i] == ' ' {
                Err(ParsingErr::MissingInfo)
            } else {
                Err(ParsingErr::SideToMove)
            }
        },
    }
}

/// Write one rank: `r` are the squares still to write, `e` the length
/// of the empty run read so far and not yet written.
pub open spec fn enc_rank_aux(r: Seq<Option<(Color, PieceTypes)>>, e: int) -> Seq<char>
    decreases r.len(),
{
    if r.len() == 0 {
        if e == 0 {
            Seq::empty()
        } else {
            seq![digit_char(e)]
        }
    } else {
        match r[0] {
            None => enc_rank_aux(r.subrange(1, r.len() as int), e + 1),
            Some(p) => (if e == 0 {
                Seq::<char>::empty()
            } else {
                seq![digit_char(e)]
            }) + seq![piece_char(p.0, p.1)] + enc_rank_aux(r.subrange(1, r.len() as int), 0),
        }
    }
}

/// Write the ranks of `sq`, eight squares each, separated by `/`.
pub open spec fn enc_ranks(sq: Seq<Option<(Color, PieceTypes)>>) -> Seq<char>
    decreases sq.len(),
{
    if sq.len() <= 8 {
        enc_rank_aux(sq, 0)
    } else {
        enc_rank_aux(sq.subrange(0, 8), 0) + seq!['/'] + enc_ranks(
            sq.subrange(8, sq.len() as int),
        )
    }
}

/// Write a whole position.
pub open spec fn fen_chars(sq: Seq<Option<(Color, PieceTypes)>>, side: Color) -> Seq<char> {
    enc_ranks(sq) + seq![' ', side_char(side)]
}

/// The catalog that the squares `sq` give side `c`: one record per
/// occupied square of that color, in scan order, none captured.
pub open spec fn pieces_from(sq: Seq<Option<(Color, PieceTypes)>>, c: Color, i: int) -> Seq<Piece>
    decreases sq.len() - i,
{
    if i < 0 || i >= sq.len() {
        Seq::empty()
    } else {
        (match sq[i] {
            Some((cc, t)) => if cc == c {
                seq![Piece { color: c, position: sq_pos(i), taken: false, piece_type: t }]
            } else {
                Seq::<Piece>::empty()
            },
            None => Seq::<Piece>::empty(),
        }) + pieces_from(sq, c, i + 1)
    }
}

/// The 64 squares of a state, in scan order, each with the color and
/// kind of the piece standing on it.
pub open spec fn squares_of(s: StateView) -> Seq<Option<(Color, PieceTypes)>> {
    Seq::new(
        64,
        |i: int|
            match at2(s.board, i % 8, 7 - i / 8) {
                None => None,
                Some(e) => Some(
                    (e.player_color, s.cat(e.player_color)[e.piece_index as int].piece_type),
                ),
            },
    )
}

/// Splitting the square sequence splits the catalog it gives a side.
pub proof fn lemma_pieces_from_append(
    a: Seq<Option<(Color, PieceTypes)>>,
    b: Seq<Option<(Color, PieceTypes)>>,
    c: Color,
    i: int,
)
    requires
        0 <= i <= a.len(),
    ensures
        pieces_from(a + b, c, i) == pieces_from(a, c, i) + pieces_from(a + b, c, a.len() as int),
    decreases a.len() - i,
{
    if i < a.len() {
        assert((a + b)[i] == a[i]);
        lemma_pieces_from_append(a, b, c, i + 1);
        assert(pieces_from(a + b, c, i) =~= pieces_from(a, c, i) + pieces_from(
            a + b,
            c,
            a.len() as int,
        ));
    } else {
        assert(pieces_from(a, c, i) =~= Seq::<Piece>::empty());
        assert(pieces_from(a + b, c, i) =~= Seq::<Piece>::empty() + pieces_from(
            a + b,
            c,
            a.len() as int,
        ));
    }
}

/// A run of empty squares adds no piece.
pub proof fn lemma_pieces_from_none_suffix(
    s: Seq<Option<(Color, PieceTypes)>>,
    c: Color,
    i: int,
)
    requires
        0 <= i <= s.len(),
        forall|j: int| i <= j < s.len() ==> s[j] is None,
    ensures
        pieces_from(s, c, i) == Seq::<Piece>::empty(),
    decreases s.len() - i,
{
    if i < s.len() {
        lemma_pieces_from_none_suffix(s, c, i + 1);
        assert(pieces_from(s, c, i) =~= Seq::<Piece>::empty());
    }
}

/// The king count over a prefix reads only that prefix.
pub proof fn lemma_count_kings_prefix(
    a: Seq<Option<(Color, PieceTypes)>>,
    b: Seq<Option<(Color, PieceTypes)>>,
    i: int,
)
    requires
        forall|j: int| 0 <= j < i ==> a[j] == b[j],
    ensures
        count_kings(a, i) == count_kings(b, i),
    decreases i,
{
    if i > 0 {
        lemma_count_kings_prefix(a, b, i - 1);
    }
}

/// Empty squares leave the king count alone.
pub proof fn lemma_count_kings_none_ext(s: Seq<Option<(Color, PieceTypes)>>, i: int, j: int)
    requires
        0 <= i <= j,
        forall|l: int| i <= l < j ==> 0 <= l < s.len() && s[l] is None,
    ensures
        count_kings(s, j) == count_kings(s, i),
    decreases j - i,
{
    if i < j {
        lemma_count_kings_none_ext(s, i, j - 1);
    }
}

/// Each successfully read rank contributes exactly eight squares.
pub proof fn lemma_dec_ranks_len_k(s: Seq<char>, k: int)
    requires
        1 <= k,
    ensures
        match dec_ranks(s, k) {
            Ok((sq, rest)) => sq.len() == 8 * k,
            Err(e) => true,
        },
    decreases k,
{
    let (r, rest) = dec_rank(s);
    if k > 1 && rest.len() > 0 && rest[0] == '/' && r.len() == 8 {
        lemma_dec_ranks_len_k(rest.subrange(1, rest.len() as int), k - 1);
    }
}

/// A successfully read position has exactly 64 squares.
pub proof fn lemma_dec_ranks_len(s: Seq<char>)
    ensures
        match fen_parse(s) {
            Ok((sq, side)) => sq.len() == 64,
            Err(e) => true,
        },
{
    lemma_dec_ranks_len_k(s, 8);
}

/// `p` is the record the squares give side `c` for some square at or
/// after `lo` in scan order.
pub open spec fn from_square(
    sq: Seq<Option<(Color, PieceTypes)>>,
    c: Color,
    p: Piece,
    lo: int,
) -> bool {
    exists|j: int|
        lo <= j < sq.len() && sq[j] == Some((c, p.piece_type)) && p == (Piece {
            color: c,
            position: sq_pos(j),
            taken: false,
            piece_type: p.piece_type,
        })
}

/// Every record the squares give a side comes from one of its occupied
/// squares.
pub proof fn lemma_pieces_from_src(sq: Seq<Option<(Color, PieceTypes)>>, c: Color, i: int)
    ensures
        forall|k: int|
            0 <= k < pieces_from(sq, c, i).len() ==> from_square(
                sq,
                c,
                #[trigger] pieces_from(sq, c, i)[k],
                i,
            ),
    decreases sq.len() - i,
{
    if 0 <= i < sq.len() {
        lemma_pieces_from_src(sq, c, i + 1);
        assert forall|k: int| 0 <= k < pieces_from(sq, c, i).len() implies from_square(
            sq,
            c,
            #[trigger] pieces_from(sq, c, i)[k],
            i,
        ) by {
            let head: Seq<Piece> = match sq[i] {
                Some((cc, t)) => if cc == c {
                    seq![Piece { color: c, position: sq_pos(i), taken: false, piece_type: t }]
                } else {
                    Seq::<Piece>::empty()
                },
                None => Seq::<Piece>::empty(),
            };
            if k < head.len() {
                assert(sq[i] == Some((c, pieces_from(sq, c, i)[k].piece_type)));
            } else {
                let p = pieces_from(sq, c, i + 1)[k - head.len()];
                assert(from_square(sq, c, p, i + 1));
                let j = choose|j: int|
                    i + 1 <= j < sq.len() && sq[j] == Some((c, p.piece_type)) && p == (Piece {
                        color: c,
                        position: sq_pos(j),
                        taken: false,
                        piece_type: p.piece_type,
                    });
                assert(i <= j < sq.len() && sq[j] == Some((c, p.piece_type)));
            }
        }
    }
}

/// Every occupied square of a side appears among the records the
/// squares give it.
pub proof fn lemma_pieces_from_contains(
    sq: Seq<Option<(Color, PieceTypes)>>,
    c: Color,
    i: int,
    j: int,
    t: PieceTypes,
)
    requires
        0 <= i <= j < sq.len(),
        sq[j] == Some((c, t)),
    ensures
        pieces_from(sq, c, i).contains(
            Piece { color: c, position: sq_pos(j), taken: false, piece_type: t },
        ),
    decreases j - i,
{
    let p = Piece { color: c, position: sq_pos(j), taken: false, piece_type: t };
    if i == j {
        assert(pieces_from(sq, c, i)[0] == p);
    } else {
        lemma_pieces_from_contains(sq, c, i + 1, j, t);
        let kk = choose|kk: int|
            0 <= kk < pieces_from(sq, c, i + 1).len() && #[trigger] pieces_from(sq, c, i + 1)[kk]
                == p;
        let head_len = pieces_from(sq, c, i).len() - pieces_from(sq, c, i + 1).len();
        assert(pieces_from(sq, c, i)[head_len + kk] == p);
    }
}

/// The scan order is injective: two different indices name two
/// different squares.
pub proof fn lemma_sq_pos_injective(j1: int, j2: int)
    requires
        0 <= j1 < 64,
        0 <= j2 < 64,
        sq_pos(j1) == sq_pos(j2),
    ensures
        j1 == j2,
{
    assert(j1 % 8 == j2 % 8 && j1 / 8 == j2 / 8 ==> j1 == j2) by (nonlinear_arith)
        requires
            0 <= j1 < 64 && 0 <= j2 < 64,
    ;
}

/// The records the squares give one side stand on pairwise different
/// squares.
pub proof fn lemma_pieces_from_distinct(sq: Seq<Option<(Color, PieceTypes)>>, c: Color)
    requires
        sq.len() == 64,
    ensures
        forall|k1: int, k2: int|
            0 <= k1 < k2 < pieces_from(sq, c, 0).len() ==> (#[trigger] pieces_from(sq, c, 0)[k1]).position != (
            #[trigger] pieces_from(sq, c, 0)[k2]).position,
{
    lemma_pieces_from_distinct_from(sq, c, 0);
}

proof fn lemma_pieces_from_distinct_from(sq: Seq<Option<(Color, PieceTypes)>>, c: Color, i: int)
    requires
        sq.len() == 64,
        0 <= i,
    ensures
        forall|k1: int, k2: int|
            0 <= k1 < k2 < pieces_from(sq, c, i).len() ==> (#[trigger] pieces_from(sq, c, i)[k1]).position != (
            #[trigger] pieces_from(sq, c, i)[k2]).position,
    decreases sq.len() - i,
{
    if i < sq.len() {
        lemma_pieces_from_distinct_from(sq, c, i + 1);
        lemma_pieces_from_src(sq, c, i + 1);
        assert forall|k1: int, k2: int|
            0 <= k1 < k2 < pieces_from(sq, c, i).len() implies (#[trigger] pieces_from(
            sq,
            c,
            i,
        )[k1]).position != (#[trigger] pieces_from(sq, c, i)[k2]).position by {
            let head_len = pieces_from(sq, c, i).len() - pieces_from(sq, c, i + 1).len();
            if k1 < head_len {
                // the head record stands on square `i`; the tail records
                // stand on later squares, which scan order keeps distinct
                let p2 = pieces_from(sq, c, i + 1)[k2 - head_len];
                assert(from_square(sq, c, p2, i + 1));
                let j2 = choose|j: int|
                    i + 1 <= j < sq.len() && sq[j] == Some((c, p2.piece_type)) && p2 == (Piece {
                        color: c,
                        position: sq_pos(j),
                        taken: false,
                        piece_type: p2.piece_type,
                    });
                if pieces_from(sq, c, i)[k1].position == p2.position {
                    lemma_sq_pos_injective(i, j2);
                }
            } else {
                assert(pieces_from(sq, c, i)[k1] == pieces_from(sq, c, i + 1)[k1 - head_len]);
                assert(pieces_from(sq, c, i)[k2] == pieces_from(sq, c, i + 1)[k2 - head_len]);
            }
        }
    }
}

/// Reading back one written rank yields the squares it was written
/// from, and leaves the following text untouched.
pub proof fn lemma_dec_enc_rank(r: Seq<Option<(Color, PieceTypes)>>, e: int, tail: Seq<char>)
    requires
        0 <= e,
        e + r.len() <= 8,
        tail.len() > 0,
        !is_rank_char(tail[0]),
    ensures
        dec_rank(enc_rank_aux(r, e) + tail) == (rep_none(e) + r, tail),
    decreases r.len(),
{
    if r.len() == 0 {
        if e == 0 {
            assert(enc_rank_aux(r, e) + tail =~= tail);
            assert(rep_none(e) + r =~= Seq::<Option<(Color, PieceTypes)>>::empty());
        } else {
            let s = enc_rank_aux(r, e) + tail;
            assert(s[0] == digit_char(e));
            assert(char_piece(digit_char(e)) is None);
            assert(char_digit(digit_char(e)) == Some(e));
            assert(s.subrange(1, s.len() as int) =~= tail);
            assert(rep_none(e) + dec_rank(tail).0 =~= rep_none(e) + r);
        }
    } else {
        match r[0] {
            None => {
                lemma_dec_enc_rank(r.subrange(1, r.len() as int), e + 1, tail);
                assert(rep_none(e + 1) + r.subrange(1, r.len() as int) =~= rep_none(e) + r);
            },
            Some(p) => {
                let rest = r.subrange(1, r.len() as int);
                lemma_dec_enc_rank(rest, 0, tail);
                let letter = seq![piece_char(p.0, p.1)];
                let s2 = enc_rank_aux(rest, 0) + tail;
                assert(char_piece(piece_char(p.0, p.1)) == Some(p));
                let s1 = letter + s2;
                assert(s1[0] == piece_char(p.0, p.1));
                assert(s1.subrange(1, s1.len() as int) =~= s2);
                assert(rep_none(0) + rest =~= rest);
                assert(dec_rank(s1) == (seq![Some(p)] + rest, tail));
                assert(seq![Some(p)] + rest =~= r);
                if e == 0 {
                    assert(enc_rank_aux(r, e) + tail =~= s1);
                    assert(rep_none(0) + r =~= r);
                } else {
                    let s = enc_rank_aux(r, e) + tail;
                    assert(s[0] == digit_char(e));
                    assert(char_piece(digit_char(e)) is None);
                    assert(char_digit(digit_char(e)) == Some(e));
                    assert(s.subrange(1, s.len() as int) =~= s1);
                    assert(dec_rank(s) == (rep_none(e) + (seq![Some(p)] + rest), tail));
                    assert(rep_none(e) + (seq![Some(p)] + rest) =~= rep_none(e) + r);
                }
            },
        }
    }
}

/// Reading back `k` written ranks yields the squares they were written
/// from, and consumes the space that follows them.
pub proof fn lemma_dec_enc_ranks(sq: Seq<Option<(Color, PieceTypes)>>, k: int, tail: Seq<char>)
    requires
        1 <= k,
        sq.len() == 8 * k,
        tail.len() > 0,
        tail[0] == ' ',
    ensures
        dec_ranks(enc_ranks(sq) + tail, k) == Ok::<_, ParsingErr>(
            (sq, tail.subrange(1, tail.len() as int)),
        ),
    decreases k,
{
    if k == 1 {
        lemma_dec_enc_rank(sq, 0, tail);
        assert(rep_none(0) + sq =~= sq);
        let s = enc_ranks(sq) + tail;
        assert(dec_rank(s) == (sq, tail));
    } else {
        let first = sq.subrange(0, 8);
        let rest8 = sq.subrange(8, sq.len() as int);
        let tail1 = seq!['/'] + (enc_ranks(rest8) + tail);
        lemma_dec_enc_rank(first, 0, tail1);
        assert(rep_none(0) + first =~= first);
        let s = enc_ranks(sq) + tail;
        assert(s =~= enc_rank_aux(first, 0) + tail1);
        assert(dec_rank(s) == (first, tail1));
        assert(tail1[0] == '/');
        assert(tail1.subrange(1, tail1.len() as int) =~= enc_ranks(rest8) + tail);
        lemma_dec_enc_ranks(rest8, k - 1, tail);
        assert(first + rest8 =~= sq);
    }
}

/// The round trip of the text form: writing a position of 64 squares
/// with a king total of two, then reading it back, returns exactly the
/// same squares and side to move.
pub proof fn lemma_fen_round_trip(sq: Seq<Option<(Color, PieceTypes)>>, side: Color)
    requires
        sq.len() == 64,
        count_kings(sq, 64) == 2,
    ensures
        fen_parse(fen_chars(sq, side)) == Ok::<_, ParsingErr>((sq, side)),
{
    let tail = seq![' ', side_char(side)];
    lemma_dec_enc_ranks(sq, 8, tail);
    assert(fen_chars(sq, side) =~= enc_ranks(sq) + tail);
    let rest = tail.subrange(1, tail.len() as int);
    assert(rest.len() == 1 && rest[0] == side_char(side));
    assert(char_side(side_char(side)) == Some(side));
}

/// The letter of a piece, executable.
pub fn piece_char_of(c: Color, t: PieceTypes) -> (ch: char)
    ensures
        ch == piece_char(c, t),
{
    match (c, t) {
        (Color::White, PieceTypes::Pawn) => 'P',
        (Color::White, PieceTypes::Knight) => 'N',
        (Color::White, PieceTypes::Bishop) => 'B',
        (Color::White, PieceTypes::Rook) => 'R',
        (Color::White, PieceTypes::Queen) => 'Q',
        (Color::White, PieceTypes::King) => 'K',
        (Color::Black, PieceTypes::Pawn) => 'p',
        (Color::Black, PieceTypes::Knight) => 'n',
        (Color::Black, PieceTypes::Bishop) => 'b',
        (Color::Black, PieceTypes::Rook) => 'r',
        (Color::Black, PieceTypes::Queen) => 'q',
        (Color::Black, PieceTypes::King) => 'k',
    }
}

/// The digit of an empty run, executable.
pub fn digit_char_of(n: usize) -> (ch: char)
    requires
        1 <= n <= 8,
    ensures
        ch == digit_char(n as int),
{
    match n {
        1 => '1',
        2 => '2',
        3 => '3',
        4 => '4',
        5 => '5',
        6 => '6',
        7 => '7',
        _ => '8',
    }
}

/// The piece a letter names, executable.
pub fn char_piece_of(ch: char) -> (r: Option<(Color, PieceTypes)>)
    ensures
        r == char_piece(ch),
{
    match ch {
        'P' => Some((Color::White, PieceTypes::Pawn)),
        'N' => Some((Color::White, PieceTypes::Knight)),
        'B' => Some((Color::White, PieceTypes::Bishop)),
        'R' => Some((Color::White, PieceTypes::Rook)),
        'Q' => Some((Color::White, PieceTypes::Queen)),
        'K' => Some((Color::White, PieceTypes::King)),
        'p' => Some((Color::Black, PieceTypes::Pawn)),
        'n' => Some((Color::Black, PieceTypes::Knight)),
        'b' => Some((Color::Black, PieceTypes::Bishop)),
        'r' => Some((Color::Black, PieceTypes::Rook)),
        'q' => Some((Color::Black, PieceTypes::Queen)),
        'k' => Some((Color::Black, PieceTypes::King)),
        _ => None,
    }
}

/// The empty-run length a digit names, executable.
pub fn char_digit_of(ch: char) -> (r: Option<usize>)
    ensures
        match char_digit(ch) {
            Some(n) => r == Some(n as usize),
            None => r is None,
        },
{
    match ch {
        '1' => Some(1),
        '2' => Some(2),
        '3' => Some(3),
        '4' => Some(4),
        '5' => Some(5),
        '6' => Some(6),
        '7' => Some(7),
        '8' => Some(8),
        _ => None,
    }
}

/// Relies on `String: FromIterator<char>`: collecting characters yields
/// the string of exactly those characters, in order.
#[verifier::external_body]
pub fn chars_to_string(v: &Vec<char>) -> (s: String)
    ensures
        s@ == v@,
{
    v.iter().collect()
}

} // verus!
