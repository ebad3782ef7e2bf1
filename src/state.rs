//! What a board holds, and what an attempted move does to it.
use crate::piece::{Color, Piece, PieceType, Position};
use crate::rules::{
    can_reach, clear_rank, has_escape, in_check, is_king_of, lemma_reach_frame, one_king,
    relocate, wf_squares,
};
use vstd::prelude::*;

verus! {

/// How a proposed move is classified.
#[derive(Debug, PartialEq, Eq, Clone, Copy, Structural)]
pub enum MoveValidity {
    Valid,
    ShortCastle,
    LongCastle,
    EnPassant,
    Invalid,
}

/// The square (`x`, `y`).
pub open spec fn square(x: int, y: int) -> Position {
    Position { x: x as u8, y: y as u8 }
}

/// The square an en passant capture by `m` onto `t` takes the enemy pawn from.
pub open spec fn passed_square(m: Piece, t: Piece) -> Position {
    Position { x: t.position.x, y: m.position.y }
}

/// The row a pawn of side `c` stands on when it may capture en passant.
pub open spec fn en_passant_row(c: Color) -> int {
    match c {
        Color::White => 3,
        Color::Black => 4,
    }
}

/// Pawn `m` steps diagonally forward onto the empty square of `t`, and the
/// last move was a double step of a pawn that now stands beside `m`, on the
/// square `t` lies behind.
pub open spec fn en_passant_gate(last: Piece, double_step: bool, m: Piece, t: Piece) -> bool {
    let dx = t.position.x - m.position.x;
    let dy = t.position.y - m.position.y;
    &&& m.piece_type == PieceType::Pawn
    &&& t.is_empty()
    &&& dy == m.color.forward()
    &&& (dx == 1 || dx == -1)
    &&& m.position.y == en_passant_row(m.color)
    &&& double_step
    &&& last.piece_type == PieceType::Pawn
    &&& last.position == passed_square(m, t)
}

/// The squares after pawn `m` captures en passant onto `t`.
pub open spec fn en_passant_squares(sq: Seq<Piece>, m: Piece, t: Piece) -> Seq<Piece> {
    let p = passed_square(m, t);
    relocate(
        sq.update(p.idx(), Piece::fresh(PieceType::Empty, p, Color::Black)),
        m.position,
        t.position,
    )
}

/// How many squares the king walks when castling.
pub open spec fn castle_steps(short: bool) -> int {
    if short {
        2
    } else {
        3
    }
}

/// The file of the king after `k` steps of its castling walk.
pub open spec fn walk_file(short: bool, k: int) -> int {
    if short {
        4 + k
    } else {
        4 - k
    }
}

/// The file of the rook that castles.
pub open spec fn corner_file(short: bool) -> int {
    if short {
        7
    } else {
        0
    }
}

/// The file the castling rook lands on.
pub open spec fn rook_file(short: bool) -> int {
    if short {
        5
    } else {
        2
    }
}

/// The squares after the king on row `r` has walked `n` squares of its
/// castling walk.
pub open spec fn castle_walk(sq: Seq<Piece>, r: int, short: bool, n: nat) -> Seq<Piece>
    decreases n,
{
    if n == 0 {
        sq
    } else {
        relocate(
            castle_walk(sq, r, short, (n - 1) as nat),
            square(walk_file(short, n - 1), r),
            square(walk_file(short, n as int), r),
        )
    }
}

/// The squares after a completed castle on row `r`.
pub open spec fn castled(sq: Seq<Piece>, r: int, short: bool) -> Seq<Piece> {
    relocate(
        castle_walk(sq, r, short, castle_steps(short) as nat),
        square(corner_file(short), r),
        square(rook_file(short), r),
    )
}

/// The king of side `c` and its castling rook stand unmoved on their first
/// squares, and every square between them is empty.
pub open spec fn castle_placed(sq: Seq<Piece>, c: Color, short: bool) -> bool {
    let r = c.home_rank() as int;
    let king = sq[8 * r + 4];
    let rook = sq[8 * r + corner_file(short)];
    &&& king.piece_type == PieceType::King
    &&& king.color == c
    &&& !king.has_moved
    &&& rook.piece_type == PieceType::Rook
    &&& rook.color == c
    &&& !rook.has_moved
    &&& clear_rank(sq, square(4, r), if short { 3 } else { -4 })
}

/// Side `c` may start to castle: its pieces are placed for it and `c` is not
/// in check.
pub open spec fn castle_ready(sq: Seq<Piece>, c: Color, short: bool) -> bool {
    castle_placed(sq, c, short) && !in_check(sq, c)
}

/// The king `m` asks to castle by moving onto `t`.
pub open spec fn castle_gate(sq: Seq<Piece>, m: Piece, t: Piece, short: bool) -> bool {
    let r = m.color.home_rank() as int;
    &&& m.piece_type == PieceType::King
    &&& m.position == square(4, r)
    &&& t.position == square(walk_file(short, castle_steps(short)), r)
    &&& castle_ready(sq, m.color, short)
}

/// No square of the king's castling walk, the landing square included,
/// leaves side `c` in check.
pub open spec fn castle_safe(sq: Seq<Piece>, c: Color, short: bool) -> bool {
    let r = c.home_rank() as int;
    forall|n: nat|
        1 <= n <= castle_steps(short) ==> !in_check(#[trigger] castle_walk(sq, r, short, n), c)
}

/// Once the king of side `c` stands on its castling square, bringing the rook
/// from the corner beside it to the king's other side cannot put `c` in
/// check: no line from an enemy piece to the king passes through the corner.
pub proof fn lemma_rook_leaves_corner(w: Seq<Piece>, c: Color, short: bool)
    requires
        wf_squares(w),
        one_king(w, c),
        is_king_of(w[8 * c.home_rank() + walk_file(short, castle_steps(short))], c),
        w[8 * c.home_rank() + corner_file(short)].belongs_to(c),
        w[8 * c.home_rank() + rook_file(short)].is_empty(),
        !in_check(w, c),
    ensures
        !in_check(
            relocate(
                w,
                square(corner_file(short), c.home_rank() as int),
                square(rook_file(short), c.home_rank() as int),
            ),
            c,
        ),
{
    let r = c.home_rank() as int;
    let corner = square(corner_file(short), r);
    let dest = square(rook_file(short), r);
    let w2 = relocate(w, corner, dest);
    let king = 8 * r + walk_file(short, castle_steps(short));
    assert forall|s: int| 0 <= s < 64 && s != corner.idx() && (#[trigger] w2[s]).is_empty()
        implies w[s].is_empty() by {
        if s != dest.idx() {
            assert(w2[s] == w[s]);
        }
    }
    assert forall|i: int, k: int|
        0 <= i < 64 && 0 <= k < 64 && is_king_of(w2[k], c) && w2[i].belongs_to(c.flipped())
            implies !#[trigger] can_reach(w2, w2[i], w2[k]) by {
        assert(w2[k] == w[k]);
        assert(is_king_of(w[king], c));
        assert(k == king);
        assert(w2[i] == w[i]);
        if can_reach(w2, w2[i], w2[k]) {
            lemma_reach_frame(w, w2, w[i], w[k], corner);
            assert(can_reach(w, w[i], w[k]));
        }
    }
}

/// The letter of file `x`.
pub open spec fn file_letter(x: int) -> char {
    if x == 0 {
        'a'
    } else if x == 1 {
        'b'
    } else if x == 2 {
        'c'
    } else if x == 3 {
        'd'
    } else if x == 4 {
        'e'
    } else if x == 5 {
        'f'
    } else if x == 6 {
        'g'
    } else {
        'h'
    }
}

/// The rank number of row `y`: 8 minus the row index.
pub open spec fn rank_digit(y: int) -> char {
    if y == 0 {
        '8'
    } else if y == 1 {
        '7'
    } else if y == 2 {
        '6'
    } else if y == 3 {
        '5'
    } else if y == 4 {
        '4'
    } else if y == 5 {
        '3'
    } else if y == 6 {
        '2'
    } else {
        '1'
    }
}

/// The letter a piece kind is written with; pawns have none.
pub open spec fn kind_letter(k: PieceType) -> Seq<char> {
    match k {
        PieceType::Empty => seq![],
        PieceType::Pawn => seq![],
        PieceType::Knight => seq!['N'],
        PieceType::Bishop => seq!['B'],
        PieceType::Rook => seq!['R'],
        PieceType::Queen => seq!['Q'],
        PieceType::King => seq!['K'],
    }
}

/// The notation of `m` moving onto the square of `t`: the piece letter (for a
/// capturing pawn, its file), `x` on a capture, the destination, ` e.p.` for
/// en passant, then `suffix`.
pub open spec fn move_text(
    m: Piece,
    t: Piece,
    captured: bool,
    en_passant: bool,
    suffix: Seq<char>,
) -> Seq<char> {
    let prefix = if m.piece_type == PieceType::Pawn && captured {
        seq![file_letter(m.position.x as int)]
    } else {
        kind_letter(m.piece_type)
    };
    prefix + (if captured {
        seq!['x']
    } else {
        seq![]
    }) + seq![file_letter(t.position.x as int), rank_digit(t.position.y as int)] + (
    if en_passant {
        seq![' ', 'e', '.', 'p', '.']
    } else {
        seq![]
    }) + suffix
}

/// `#` when side `c` is checkmated, `+` when it is in check otherwise, and
/// nothing when it is not in check.
pub open spec fn check_suffix(sq: Seq<Piece>, c: Color) -> Seq<char> {
    if in_check(sq, c) {
        if has_escape(sq, c) {
            seq!['+']
        } else {
            seq!['#']
        }
    } else {
        seq![]
    }
}

/// What a board holds, as seen from outside.
pub struct BoardState {
    pub squares: Seq<Piece>,
    pub turn: Color,
    pub last_moved: Piece,
    /// The last move was a pawn's double step.
    pub double_step: bool,
}

impl BoardState {
    /// A position the engine can play on: every square records its own
    /// position, each side has exactly one king, the side that just moved is
    /// not in check, and the last piece moved still stands on its square.
    pub open spec fn valid(self) -> bool {
        &&& wf_squares(self.squares)
        &&& one_king(self.squares, Color::White)
        &&& one_king(self.squares, Color::Black)
        &&& !in_check(self.squares, self.turn.flipped())
        &&& (!self.last_moved.is_empty() ==> self.last_moved.position.valid()
            && self.squares[self.last_moved.position.idx()] == self.last_moved)
    }

    /// The move is not refused before its piece's rules are consulted: the
    /// source holds a piece of the side to move, the destination differs and
    /// does not hold a piece of that side.
    pub open spec fn prechecks(self, from: Position, to: Position) -> bool {
        let m = self.squares[from.idx()];
        let t = self.squares[to.idx()];
        &&& !m.is_empty()
        &&& from != to
        &&& m.color == self.turn
        &&& !t.belongs_to(self.turn)
    }

    /// The piece rules' verdict on moving from `from` to `to`.
    pub open spec fn classify(self, from: Position, to: Position) -> MoveValidity {
        let m = self.squares[from.idx()];
        let t = self.squares[to.idx()];
        if can_reach(self.squares, m, t) {
            MoveValidity::Valid
        } else if en_passant_gate(self.last_moved, self.double_step, m, t) {
            MoveValidity::EnPassant
        } else if castle_gate(self.squares, m, t, true) {
            MoveValidity::ShortCastle
        } else if castle_gate(self.squares, m, t, false) {
            MoveValidity::LongCastle
        } else {
            MoveValidity::Invalid
        }
    }

    /// The squares after the move, whatever its kind.
    pub open spec fn landing(self, from: Position, to: Position) -> Seq<Piece> {
        let m = self.squares[from.idx()];
        let t = self.squares[to.idx()];
        let r = self.turn.home_rank() as int;
        match self.classify(from, to) {
            MoveValidity::EnPassant => en_passant_squares(self.squares, m, t),
            MoveValidity::ShortCastle => castled(self.squares, r, true),
            MoveValidity::LongCastle => castled(self.squares, r, false),
            _ => relocate(self.squares, from, to),
        }
    }

    /// The move is played: it passes the prechecks and its piece's rules, and
    /// leaves the mover out of check (for castling: at every step).
    pub open spec fn accepts(self, from: Position, to: Position) -> bool {
        &&& self.prechecks(from, to)
        &&& match self.classify(from, to) {
            MoveValidity::Valid => !in_check(self.landing(from, to), self.turn),
            MoveValidity::EnPassant => !in_check(self.landing(from, to), self.turn),
            MoveValidity::ShortCastle => castle_safe(self.squares, self.turn, true),
            MoveValidity::LongCastle => castle_safe(self.squares, self.turn, false),
            MoveValidity::Invalid => false,
        }
    }

    /// The board after an accepted move: the new squares, the other side to
    /// move, the piece that moved (for castling, the rook), and whether the
    /// move was a pawn's double step.
    pub open spec fn after(self, from: Position, to: Position) -> BoardState {
        let sq = self.landing(from, to);
        let r = self.turn.home_rank() as int;
        let last = match self.classify(from, to) {
            MoveValidity::ShortCastle => sq[8 * r + rook_file(true)],
            MoveValidity::LongCastle => sq[8 * r + rook_file(false)],
            _ => sq[to.idx()],
        };
        let m = self.squares[from.idx()];
        let double = self.classify(from, to) == MoveValidity::Valid && m.piece_type
            == PieceType::Pawn && (to.y - from.y == 2 || to.y - from.y == -2);
        BoardState { squares: sq, turn: self.turn.flipped(), last_moved: last, double_step: double }
    }

    /// The notation of an accepted move. An en passant capture is written as
    /// a pawn capture (`exd6`) followed by ` e.p.`; castling is written `O-O`
    /// or `O-O-O` with no check mark.
    pub open spec fn notation(self, from: Position, to: Position) -> Seq<char> {
        let m = self.squares[from.idx()];
        let t = self.squares[to.idx()];
        let suffix = check_suffix(self.landing(from, to), self.turn.flipped());
        match self.classify(from, to) {
            MoveValidity::ShortCastle => seq!['O', '-', 'O'],
            MoveValidity::LongCastle => seq!['O', '-', 'O', '-', 'O'],
            MoveValidity::EnPassant => move_text(m, t, true, true, suffix),
            _ => move_text(m, t, !t.is_empty(), false, suffix),
        }
    }
}

} // verus!
