//! The rules of movement, stated over the 64 squares of a board.
use crate::piece::{Color, Piece, PieceType, Position};
use vstd::prelude::*;

verus! {

/// Every square holds a piece whose recorded position is that square.
pub open spec fn wf_squares(sq: Seq<Piece>) -> bool {
    &&& sq.len() == 64
    &&& forall|i: int|
        0 <= i < 64 ==> (#[trigger] sq[i]).position.valid() && sq[i].position.idx() == i
}

/// Square (`x`, `y`) is empty.
pub open spec fn vacant(sq: Seq<Piece>, x: int, y: int) -> bool {
    sq[8 * y + x].piece_type == PieceType::Empty
}

/// `i` lies strictly between zero and `d`.
pub open spec fn strictly_between(i: int, d: int) -> bool {
    (0 < i && i < d) || (d < i && i < 0)
}

/// The square `i` files to the right of `p` is empty.
pub open spec fn vacant_on_rank(sq: Seq<Piece>, p: Position, i: int) -> bool {
    vacant(sq, p.x + i, p.y as int)
}

/// The square `i` rows below `p` is empty.
pub open spec fn vacant_on_file(sq: Seq<Piece>, p: Position, i: int) -> bool {
    vacant(sq, p.x as int, p.y + i)
}

/// The square `i` files right and `i` rows up from `p` is empty.
pub open spec fn vacant_on_rising(sq: Seq<Piece>, p: Position, i: int) -> bool {
    vacant(sq, p.x + i, p.y - i)
}

/// The square `i` files right and `i` rows down from `p` is empty.
pub open spec fn vacant_on_falling(sq: Seq<Piece>, p: Position, i: int) -> bool {
    vacant(sq, p.x + i, p.y + i)
}

/// No piece stands strictly between `p` and the square `dx` files away on its rank.
pub open spec fn clear_rank(sq: Seq<Piece>, p: Position, dx: int) -> bool {
    forall|i: int| strictly_between(i, dx) ==> #[trigger] vacant_on_rank(sq, p, i)
}

/// No piece stands strictly between `p` and the square `dy` rows away on its file.
pub open spec fn clear_file(sq: Seq<Piece>, p: Position, dy: int) -> bool {
    forall|i: int| strictly_between(i, dy) ==> #[trigger] vacant_on_file(sq, p, i)
}

/// No piece stands strictly between `p` and the square (`p.x + dx`, `p.y - dx`).
pub open spec fn clear_rising(sq: Seq<Piece>, p: Position, dx: int) -> bool {
    forall|i: int| strictly_between(i, dx) ==> #[trigger] vacant_on_rising(sq, p, i)
}

/// No piece stands strictly between `p` and the square (`p.x + dx`, `p.y + dx`).
pub open spec fn clear_falling(sq: Seq<Piece>, p: Position, dx: int) -> bool {
    forall|i: int| strictly_between(i, dx) ==> #[trigger] vacant_on_falling(sq, p, i)
}

pub open spec fn abs(v: int) -> int {
    if v < 0 {
        -v
    } else {
        v
    }
}

/// A pawn's step, double step from its unmoved state, or diagonal capture.
pub open spec fn pawn_reaches(sq: Seq<Piece>, m: Piece, t: Piece) -> bool {
    let dx = t.position.x - m.position.x;
    let dy = t.position.y - m.position.y;
    let f = m.color.forward();
    ||| dy == f && dx == 0 && t.is_empty()
    ||| !m.has_moved && dy == 2 * f && dx == 0 && t.is_empty() && clear_file(sq, m.position, dy)
    ||| dy == f && (dx == 1 || dx == -1) && !t.is_empty()
}

/// A move along the mover's file or rank with nothing in the way.
pub open spec fn straight_reaches(sq: Seq<Piece>, m: Piece, t: Piece) -> bool {
    if m.position.x == t.position.x {
        clear_file(sq, m.position, t.position.y - m.position.y)
    } else if m.position.y == t.position.y {
        clear_rank(sq, m.position, t.position.x - m.position.x)
    } else {
        false
    }
}

/// A move along one of the mover's diagonals with nothing in the way.
pub open spec fn diagonal_reaches(sq: Seq<Piece>, m: Piece, t: Piece) -> bool {
    let dx = t.position.x - m.position.x;
    let dy = t.position.y - m.position.y;
    if dx + dy == 0 {
        clear_rising(sq, m.position, dx)
    } else if dx == dy {
        clear_falling(sq, m.position, dx)
    } else {
        false
    }
}

/// The piece `m` may move onto the square of `t` by its ordinary movement
/// rule (castling and en passant aside). Whether `t` holds a piece of the
/// mover's own side is not considered here.
pub open spec fn can_reach(sq: Seq<Piece>, m: Piece, t: Piece) -> bool {
    let dx = t.position.x - m.position.x;
    let dy = t.position.y - m.position.y;
    match m.piece_type {
        PieceType::Empty => false,
        PieceType::Pawn => pawn_reaches(sq, m, t),
        PieceType::Knight => (abs(dx) == 2 && abs(dy) == 1) || (abs(dx) == 1 && abs(dy) == 2),
        PieceType::Bishop => diagonal_reaches(sq, m, t),
        PieceType::Rook => straight_reaches(sq, m, t),
        PieceType::Queen => if m.position.x == t.position.x || m.position.y == t.position.y {
            straight_reaches(sq, m, t)
        } else {
            diagonal_reaches(sq, m, t)
        },
        PieceType::King => abs(dx) <= 1 && abs(dy) <= 1 && !(dx == 0 && dy == 0),
    }
}

/// `p` is the king of side `c`.
pub open spec fn is_king_of(p: Piece, c: Color) -> bool {
    p.piece_type == PieceType::King && p.color == c
}

/// Side `c` has exactly one king on the board.
pub open spec fn one_king(sq: Seq<Piece>, c: Color) -> bool {
    &&& exists|k: int| 0 <= k < 64 && is_king_of(#[trigger] sq[k], c)
    &&& forall|k1: int, k2: int|
        0 <= k1 < 64 && 0 <= k2 < 64 && is_king_of(#[trigger] sq[k1], c) && is_king_of(
            #[trigger] sq[k2],
            c,
        ) ==> k1 == k2
}

/// Some piece of the side opposing `c` can reach the square of `c`'s king.
pub open spec fn in_check(sq: Seq<Piece>, c: Color) -> bool {
    exists|i: int, k: int|
        0 <= i < 64 && 0 <= k < 64 && is_king_of(sq[k], c) && sq[i].belongs_to(c.flipped())
            && #[trigger] can_reach(sq, sq[i], sq[k])
}

/// The squares after the piece on `from` moves to `to`: it arrives marked as
/// moved, and `from` is left empty.
pub open spec fn relocate(sq: Seq<Piece>, from: Position, to: Position) -> Seq<Piece> {
    let m = sq[from.idx()];
    sq.update(
        to.idx(),
        Piece { piece_type: m.piece_type, position: to, color: m.color, has_moved: true },
    ).update(from.idx(), Piece::fresh(PieceType::Empty, from, Color::White))
}

/// Moving the piece on square `i` to square `j` is an ordinary move of side
/// `c` that leaves `c` out of check.
pub open spec fn escapes(sq: Seq<Piece>, c: Color, i: int, j: int) -> bool {
    &&& sq[i].belongs_to(c)
    &&& can_reach(sq, sq[i], sq[j])
    &&& !sq[j].belongs_to(c)
    &&& !in_check(relocate(sq, sq[i].position, sq[j].position), c)
}

/// Side `c` has an ordinary move after which it is not in check.
pub open spec fn has_escape(sq: Seq<Piece>, c: Color) -> bool {
    exists|i: int, j: int| 0 <= i < 64 && 0 <= j < 64 && #[trigger] escapes(sq, c, i, j)
}

pub proof fn lemma_index_unique(p: Position, q: Position)
    requires
        p.valid(),
        q.valid(),
        p.idx() == q.idx(),
    ensures
        p == q,
{
}

pub proof fn lemma_relocate_wf(sq: Seq<Piece>, from: Position, to: Position)
    requires
        wf_squares(sq),
        from.valid(),
        to.valid(),
    ensures
        wf_squares(relocate(sq, from, to)),
{
    let r = relocate(sq, from, to);
    assert forall|i: int| 0 <= i < 64
        implies (#[trigger] r[i]).position.valid() && r[i].position.idx() == i by {
        if i == from.idx() {
        } else if i == to.idx() {
        } else {
            assert(r[i] == sq[i]);
        }
    }
}

/// Relocating a piece keeps one king of side `d` when the destination does
/// not hold that king.
pub proof fn lemma_relocate_one_king(sq: Seq<Piece>, from: Position, to: Position, d: Color)
    requires
        wf_squares(sq),
        from.valid(),
        to.valid(),
        from != to,
        one_king(sq, d),
        !is_king_of(sq[to.idx()], d),
    ensures
        one_king(relocate(sq, from, to), d),
{
    let r = relocate(sq, from, to);
    let k = choose|k: int| 0 <= k < 64 && is_king_of(#[trigger] sq[k], d);
    if k == from.idx() {
        assert(is_king_of(r[to.idx()], d));
    } else {
        assert(k != to.idx());
        assert(r[k] == sq[k]);
        assert(is_king_of(r[k], d));
    }
    assert forall|k1: int, k2: int|
        0 <= k1 < 64 && 0 <= k2 < 64 && is_king_of(#[trigger] r[k1], d) && is_king_of(
            #[trigger] r[k2],
            d,
        ) implies k1 == k2 by {
        if k1 != to.idx() && k2 != to.idx() {
            assert(r[k1] == sq[k1]);
            assert(r[k2] == sq[k2]);
        } else if k1 == to.idx() && k2 != to.idx() {
            assert(r[k2] == sq[k2]);
            assert(is_king_of(sq[from.idx()], d));
        } else if k2 == to.idx() && k1 != to.idx() {
            assert(r[k1] == sq[k1]);
            assert(is_king_of(sq[from.idx()], d));
        }
    }
}


/// Emptying a square that does not hold the king of side `d` keeps the
/// squares well formed and `d` with one king.
pub proof fn lemma_clear_square(sq: Seq<Piece>, p: Position, d: Color)
    requires
        wf_squares(sq),
        p.valid(),
        one_king(sq, d),
        !is_king_of(sq[p.idx()], d),
    ensures
        wf_squares(sq.update(p.idx(), Piece::fresh(PieceType::Empty, p, Color::Black))),
        one_king(sq.update(p.idx(), Piece::fresh(PieceType::Empty, p, Color::Black)), d),
{
    let u = sq.update(p.idx(), Piece::fresh(PieceType::Empty, p, Color::Black));
    assert forall|i: int| 0 <= i < 64
        implies (#[trigger] u[i]).position.valid() && u[i].position.idx() == i by {
        if i != p.idx() {
            assert(u[i] == sq[i]);
        }
    }
    let k = choose|k: int| 0 <= k < 64 && is_king_of(#[trigger] sq[k], d);
    assert(u[k] == sq[k]);
    assert forall|k1: int, k2: int|
        0 <= k1 < 64 && 0 <= k2 < 64 && is_king_of(#[trigger] u[k1], d) && is_king_of(
            #[trigger] u[k2],
            d,
        ) implies k1 == k2 by {
        assert(u[k1] == sq[k1]);
        assert(u[k2] == sq[k2]);
    }
}


/// One for a square that holds a piece, zero for an empty one.
pub open spec fn occupancy(p: Piece) -> int {
    if p.is_empty() {
        0
    } else {
        1
    }
}

/// How many squares hold a piece.
pub open spec fn occupied_count(sq: Seq<Piece>) -> int
    decreases sq.len(),
{
    if sq.len() == 0 {
        0
    } else {
        occupied_count(sq.drop_last()) + occupancy(sq.last())
    }
}

/// Replacing one square changes the count of pieces by what left and what
/// arrived.
pub proof fn lemma_count_update(sq: Seq<Piece>, i: int, v: Piece)
    requires
        0 <= i < sq.len(),
    ensures
        occupied_count(sq.update(i, v)) == occupied_count(sq) - occupancy(sq[i]) + occupancy(v),
    decreases sq.len(),
{
    let u = sq.update(i, v);
    if i == sq.len() - 1 {
        assert(u.drop_last() =~= sq.drop_last());
    } else {
        lemma_count_update(sq.drop_last(), i, v);
        assert(u.drop_last() =~= sq.drop_last().update(i, v));
    }
}


/// Square `e` lies strictly between `m` and `t` on a rank, file or diagonal
/// through both.
pub open spec fn strictly_inside(m: Position, t: Position, e: Position) -> bool {
    let dx = t.x - m.x;
    let dy = t.y - m.y;
    let ex = e.x - m.x;
    let ey = e.y - m.y;
    ||| dy == 0 && ey == 0 && strictly_between(ex, dx)
    ||| dx == 0 && ex == 0 && strictly_between(ey, dy)
    ||| dx + dy == 0 && ex + ey == 0 && strictly_between(ex, dx)
    ||| dx == dy && ex == ey && strictly_between(ex, dx)
}

/// Every square but `e` that is empty on `w2` is empty on `w`.
pub open spec fn emptier_except(w: Seq<Piece>, w2: Seq<Piece>, e: Position) -> bool {
    forall|s: int| 0 <= s < 64 && s != e.idx() && (#[trigger] w2[s]).is_empty() ==> w[s].is_empty()
}

proof fn lemma_rank_frame(w: Seq<Piece>, w2: Seq<Piece>, p: Position, d: int, e: Position)
    requires
        p.valid(),
        e.valid(),
        0 <= p.x + d < 8,
        emptier_except(w, w2, e),
        !(e.y == p.y && strictly_between(e.x - p.x, d)),
        clear_rank(w2, p, d),
    ensures
        clear_rank(w, p, d),
{
    assert forall|i: int| strictly_between(i, d) implies #[trigger] vacant_on_rank(w, p, i) by {
        assert(vacant_on_rank(w2, p, i));
    }
}

proof fn lemma_file_frame(w: Seq<Piece>, w2: Seq<Piece>, p: Position, d: int, e: Position)
    requires
        p.valid(),
        e.valid(),
        0 <= p.y + d < 8,
        emptier_except(w, w2, e),
        !(e.x == p.x && strictly_between(e.y - p.y, d)),
        clear_file(w2, p, d),
    ensures
        clear_file(w, p, d),
{
    assert forall|i: int| strictly_between(i, d) implies #[trigger] vacant_on_file(w, p, i) by {
        assert(vacant_on_file(w2, p, i));
    }
}

proof fn lemma_rising_frame(w: Seq<Piece>, w2: Seq<Piece>, p: Position, d: int, e: Position)
    requires
        p.valid(),
        e.valid(),
        0 <= p.x + d < 8,
        0 <= p.y - d < 8,
        emptier_except(w, w2, e),
        !((e.x - p.x) + (e.y - p.y) == 0 && strictly_between(e.x - p.x, d)),
        clear_rising(w2, p, d),
    ensures
        clear_rising(w, p, d),
{
    assert forall|i: int| strictly_between(i, d) implies #[trigger] vacant_on_rising(w, p, i) by {
        assert(vacant_on_rising(w2, p, i));
    }
}

proof fn lemma_falling_frame(w: Seq<Piece>, w2: Seq<Piece>, p: Position, d: int, e: Position)
    requires
        p.valid(),
        e.valid(),
        0 <= p.x + d < 8,
        0 <= p.y + d < 8,
        emptier_except(w, w2, e),
        !(e.x - p.x == e.y - p.y && strictly_between(e.x - p.x, d)),
        clear_falling(w2, p, d),
    ensures
        clear_falling(w, p, d),
{
    assert forall|i: int| strictly_between(i, d) implies #[trigger] vacant_on_falling(w, p, i) by {
        assert(vacant_on_falling(w2, p, i));
    }
}

/// A piece that reaches `t` on `w2` reaches it on `w` too, when every square
/// but `e` that is empty on `w2` is empty on `w`, and `e` does not lie
/// between the two squares.
pub proof fn lemma_reach_frame(w: Seq<Piece>, w2: Seq<Piece>, m: Piece, t: Piece, e: Position)
    requires
        m.position.valid(),
        t.position.valid(),
        e.valid(),
        emptier_except(w, w2, e),
        !strictly_inside(m.position, t.position, e),
        can_reach(w2, m, t),
    ensures
        can_reach(w, m, t),
{
    let p = m.position;
    let dx = t.position.x - p.x;
    let dy = t.position.y - p.y;
    if m.piece_type == PieceType::Pawn {
        if !m.has_moved && dx == 0 && clear_file(w2, p, dy) {
            lemma_file_frame(w, w2, p, dy, e);
        }
    } else if m.piece_type == PieceType::Rook || m.piece_type == PieceType::Queen {
        if dx == 0 {
            lemma_file_frame(w, w2, p, dy, e);
        } else if dy == 0 {
            lemma_rank_frame(w, w2, p, dx, e);
        } else if dx + dy == 0 {
            lemma_rising_frame(w, w2, p, dx, e);
        } else if dx == dy {
            lemma_falling_frame(w, w2, p, dx, e);
        }
    } else if m.piece_type == PieceType::Bishop {
        if dx + dy == 0 {
            lemma_rising_frame(w, w2, p, dx, e);
        } else if dx == dy {
            lemma_falling_frame(w, w2, p, dx, e);
        }
    }
}


/// Whether a square holds a piece of side `c`, as a predicate.
pub open spec fn of_side(c: Color) -> spec_fn(Piece) -> bool {
    |p: Piece| p.belongs_to(c)
}

} // verus!
