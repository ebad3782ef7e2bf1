//! The board: its squares, whose turn it is, the last piece moved, and the
//! one-ply snapshot used to take back a speculative move.
use crate::piece::{
    square_index, start_piece, start_squares, starting_pieces, Color, Piece, PieceType, Position,
};
use crate::rules::{
    can_reach, clear_falling, clear_file, clear_rank, clear_rising, diagonal_reaches, escapes,
    has_escape, in_check, is_king_of, lemma_clear_square, lemma_index_unique,
    lemma_relocate_one_king, lemma_relocate_wf, of_side, one_king, relocate, straight_reaches,
    strictly_between, vacant, vacant_on_falling, vacant_on_file, vacant_on_rank, vacant_on_rising,
    wf_squares,
};
use crate::state::{
    castle_placed, castle_ready, castle_safe, castle_steps, castle_walk, castled, corner_file,
    file_letter, kind_letter, lemma_rook_leaves_corner, move_text, rank_digit, rook_file, square,
    walk_file, BoardState, MoveValidity,
};
use vstd::prelude::*;
use vstd::string::StringExecFns;

verus! {

/// A chess board: the 64 squares in row-major order, the side to move, the
/// piece moved last and whether that move was a pawn's double step (for en
/// passant), and a snapshot of the squares taken before a move is tried, so
/// that a refused move can be taken back.
pub struct Board {
    pieces: [Piece; 64],
    turn: Color,
    last_piece_moved: Piece,
    last_move_double_step: bool,
    previous_pieces: [Piece; 64],
}

impl View for Board {
    type V = BoardState;

    closed spec fn view(&self) -> BoardState {
        BoardState {
            squares: self.pieces@,
            turn: self.turn,
            last_moved: self.last_piece_moved,
            double_step: self.last_move_double_step,
        }
    }
}

impl Board {
    /// The board is valid and the snapshot matches the squares.
    pub closed spec fn wf(&self) -> bool {
        &&& self@.valid()
        &&& self.previous_pieces@ == self.pieces@
    }

    /// Sets up a position: `pieces` in row-major order (square `8 * y + x`
    /// holds file `x` of row `y`) and `turn` to move. Returns `None` unless
    /// every square records its own position, each side has exactly one king,
    /// and the side not to move is not in check.
    pub fn from_pieces(pieces: [Piece; 64], turn: Color) -> (r: Option<Board>)
        ensures
            r is Some <==> (BoardState { squares: pieces@, turn, last_moved: no_piece(), double_step: false }).valid(),
            r is Some ==> r->0.wf() && r->0@.valid(),
            r is Some ==> r->0@ == (BoardState { squares: pieces@, turn, last_moved: no_piece(), double_step: false }),
    {
        if !positions_consistent(&pieces) || !has_one_king(&pieces, Color::White) || !has_one_king(
            &pieces,
            Color::Black,
        ) {
            return None;
        }
        let board = Board {
            pieces,
            turn,
            last_piece_moved: Piece::new(PieceType::Empty, Position::new(0, 0), Color::Black),
            last_move_double_step: false,
            previous_pieces: pieces,
        };
        proof {
            assert(one_king(board.pieces@, turn.flipped()));
        }
        if board.in_check(turn.flip()) {
            return None;
        }
        Some(board)
    }

    /// Returns the side whose turn it is.
    pub fn current_turn(&self) -> (r: Color)
        ensures
            r == self@.turn,
    {
        self.turn
    }

    /// Returns the piece moved last, as it stood after that move.
    pub fn last_moved(&self) -> (r: Piece)
        ensures
            r == self@.last_moved,
    {
        self.last_piece_moved
    }

    /// Returns what stands on `position`.
    pub fn piece_at(&self, position: Position) -> (r: Piece)
        requires
            position.valid(),
        ensures
            r == self@.squares[position.idx()],
    {
        self.pieces[square_index(position.x, position.y)]
    }

    /// Checks if a specified move jumps over another piece horizontally.
    fn is_jumping_horizontally(&self, piece: Piece, x_move: i8) -> (r: bool)
        requires
            wf_squares(self.pieces@),
            piece.position.valid(),
            0 <= piece.position.x + x_move < 8,
        ensures
            r == !clear_rank(self.pieces@, piece.position, x_move as int),
    {
        let p = piece.position;
        let mut i: i8 = 1;
        while i < x_move
            invariant
                1 <= i,
                x_move < 1 || i <= x_move,
                0 <= p.x + x_move < 8,
                p == piece.position,
                p.valid(),
                wf_squares(self.pieces@),
                forall|k: int| 0 < k < i ==> #[trigger] vacant_on_rank(self.pieces@, p, k),
            decreases x_move - i,
        {
            let x = (p.x as i8 + i) as u8;
            if self.pieces[square_index(x, p.y)].piece_type != PieceType::Empty {
                assert(strictly_between(i as int, x_move as int));
                assert(!vacant_on_rank(self.pieces@, p, i as int));
                return true;
            }
            i = i + 1;
        }
        let mut i: i8 = if x_move < 0 { x_move + 1 } else { 0 };
        while i < 0
            invariant
                x_move < i || i == 0,
                i <= 0,
                0 <= p.x + x_move < 8,
                p == piece.position,
                p.valid(),
                wf_squares(self.pieces@),
                forall|k: int| 0 < k < x_move ==> #[trigger] vacant_on_rank(self.pieces@, p, k),
                forall|k: int| x_move < k < i ==> #[trigger] vacant_on_rank(self.pieces@, p, k),
            decreases 0 - i,
        {
            let x = (p.x as i8 + i) as u8;
            if self.pieces[square_index(x, p.y)].piece_type != PieceType::Empty {
                assert(strictly_between(i as int, x_move as int));
                assert(!vacant_on_rank(self.pieces@, p, i as int));
                return true;
            }
            i = i + 1;
        }
        false
    }

    /// Checks if a specified move jumps over another piece vertically.
    fn is_jumping_vertically(&self, piece: Piece, y_move: i8) -> (r: bool)
        requires
            wf_squares(self.pieces@),
            piece.position.valid(),
            0 <= piece.position.y + y_move < 8,
        ensures
            r == !clear_file(self.pieces@, piece.position, y_move as int),
    {
        let p = piece.position;
        let mut i: i8 = 1;
        while i < y_move
            invariant
                1 <= i,
                y_move < 1 || i <= y_move,
                0 <= p.y + y_move < 8,
                p == piece.position,
                p.valid(),
                wf_squares(self.pieces@),
                forall|k: int| 0 < k < i ==> #[trigger] vacant_on_file(self.pieces@, p, k),
            decreases y_move - i,
        {
            let y = (p.y as i8 + i) as u8;
            if self.pieces[square_index(p.x, y)].piece_type != PieceType::Empty {
                assert(strictly_between(i as int, y_move as int));
                assert(!vacant_on_file(self.pieces@, p, i as int));
                return true;
            }
            i = i + 1;
        }
        let mut i: i8 = if y_move < 0 { y_move + 1 } else { 0 };
        while i < 0
            invariant
                y_move < i || i == 0,
                i <= 0,
                0 <= p.y + y_move < 8,
                p == piece.position,
                p.valid(),
                wf_squares(self.pieces@),
                forall|k: int| 0 < k < y_move ==> #[trigger] vacant_on_file(self.pieces@, p, k),
                forall|k: int| y_move < k < i ==> #[trigger] vacant_on_file(self.pieces@, p, k),
            decreases 0 - i,
        {
            let y = (p.y as i8 + i) as u8;
            if self.pieces[square_index(p.x, y)].piece_type != PieceType::Empty {
                assert(strictly_between(i as int, y_move as int));
                assert(!vacant_on_file(self.pieces@, p, i as int));
                return true;
            }
            i = i + 1;
        }
        false
    }

    /// Checks if a specified move jumps over another piece diagonally with a positive slope.
    fn is_jumping_diagonally_pos(&self, piece: Piece, x_move: i8) -> (r: bool)
        requires
            wf_squares(self.pieces@),
            piece.position.valid(),
            0 <= piece.position.x + x_move < 8,
            0 <= piece.position.y - x_move < 8,
        ensures
            r == !clear_rising(self.pieces@, piece.position, x_move as int),
    {
        let p = piece.position;
        let mut i: i8 = 1;
        while i < x_move
            invariant
                1 <= i,
                x_move < 1 || i <= x_move,
                0 <= p.x + x_move < 8,
                0 <= p.y - x_move < 8,
                p == piece.position,
                p.valid(),
                wf_squares(self.pieces@),
                forall|k: int| 0 < k < i ==> #[trigger] vacant_on_rising(self.pieces@, p, k),
            decreases x_move - i,
        {
            let x = (p.x as i8 + i) as u8;
            let y = (p.y as i8 - i) as u8;
            if self.pieces[square_index(x, y)].piece_type != PieceType::Empty {
                assert(strictly_between(i as int, x_move as int));
                assert(!vacant_on_rising(self.pieces@, p, i as int));
                return true;
            }
            i = i + 1;
        }
        let mut i: i8 = if x_move < 0 { x_move + 1 } else { 0 };
        while i < 0
            invariant
                x_move < i || i == 0,
                i <= 0,
                0 <= p.x + x_move < 8,
                0 <= p.y - x_move < 8,
                p == piece.position,
                p.valid(),
                wf_squares(self.pieces@),
                forall|k: int| 0 < k < x_move ==> #[trigger] vacant_on_rising(self.pieces@, p, k),
                forall|k: int| x_move < k < i ==> #[trigger] vacant_on_rising(self.pieces@, p, k),
            decreases 0 - i,
        {
            let x = (p.x as i8 + i) as u8;
            let y = (p.y as i8 - i) as u8;
            if self.pieces[square_index(x, y)].piece_type != PieceType::Empty {
                assert(strictly_between(i as int, x_move as int));
                assert(!vacant_on_rising(self.pieces@, p, i as int));
                return true;
            }
            i = i + 1;
        }
        false
    }

    /// Checks if a specified move jumps over another piece diagonally with a negative slope.
    fn is_jumping_diagonally_neg(&self, piece: Piece, x_move: i8) -> (r: bool)
        requires
            wf_squares(self.pieces@),
            piece.position.valid(),
            0 <= piece.position.x + x_move < 8,
            0 <= piece.position.y + x_move < 8,
        ensures
            r == !clear_falling(self.pieces@, piece.position, x_move as int),
    {
        let p = piece.position;
        let mut i: i8 = 1;
        while i < x_move
            invariant
                1 <= i,
                x_move < 1 || i <= x_move,
                0 <= p.x + x_move < 8,
                0 <= p.y + x_move < 8,
                p == piece.position,
                p.valid(),
                wf_squares(self.pieces@),
                forall|k: int| 0 < k < i ==> #[trigger] vacant_on_falling(self.pieces@, p, k),
            decreases x_move - i,
        {
            let x = (p.x as i8 + i) as u8;
            let y = (p.y as i8 + i) as u8;
            if self.pieces[square_index(x, y)].piece_type != PieceType::Empty {
                assert(strictly_between(i as int, x_move as int));
                assert(!vacant_on_falling(self.pieces@, p, i as int));
                return true;
            }
            i = i + 1;
        }
        let mut i: i8 = if x_move < 0 { x_move + 1 } else { 0 };
        while i < 0
            invariant
                x_move < i || i == 0,
                i <= 0,
                0 <= p.x + x_move < 8,
                0 <= p.y + x_move < 8,
                p == piece.position,
                p.valid(),
                wf_squares(self.pieces@),
                forall|k: int| 0 < k < x_move ==> #[trigger] vacant_on_falling(self.pieces@, p, k),
                forall|k: int| x_move < k < i ==> #[trigger] vacant_on_falling(self.pieces@, p, k),
            decreases 0 - i,
        {
            let x = (p.x as i8 + i) as u8;
            let y = (p.y as i8 + i) as u8;
            if self.pieces[square_index(x, y)].piece_type != PieceType::Empty {
                assert(strictly_between(i as int, x_move as int));
                assert(!vacant_on_falling(self.pieces@, p, i as int));
                return true;
            }
            i = i + 1;
        }
        false
    }

    /// The piece `m` moving to `t` along a file or rank passes no other piece.
    fn reaches_straight(&self, m: Piece, t: Piece) -> (r: bool)
        requires
            wf_squares(self.pieces@),
            m.position.valid(),
            t.position.valid(),
        ensures
            r == straight_reaches(self.pieces@, m, t),
    {
        if m.position.x == t.position.x {
            !self.is_jumping_vertically(m, t.position.y as i8 - m.position.y as i8)
        } else if m.position.y == t.position.y {
            !self.is_jumping_horizontally(m, t.position.x as i8 - m.position.x as i8)
        } else {
            false
        }
    }

    /// The piece `m` moving to `t` along a diagonal passes no other piece.
    fn reaches_diagonally(&self, m: Piece, t: Piece) -> (r: bool)
        requires
            wf_squares(self.pieces@),
            m.position.valid(),
            t.position.valid(),
        ensures
            r == diagonal_reaches(self.pieces@, m, t),
    {
        let x_move: i8 = t.position.x as i8 - m.position.x as i8;
        let y_move: i8 = t.position.y as i8 - m.position.y as i8;
        if x_move + y_move == 0 {
            !self.is_jumping_diagonally_pos(m, x_move)
        } else if x_move == y_move {
            !self.is_jumping_diagonally_neg(m, x_move)
        } else {
            false
        }
    }

    /// Whether `moved_piece` may move onto the square of `attacked_piece` by
    /// its ordinary movement rule.
    fn reaches(&self, moved_piece: Piece, attacked_piece: Piece) -> (r: bool)
        requires
            wf_squares(self.pieces@),
            moved_piece.position.valid(),
            attacked_piece.position.valid(),
        ensures
            r == can_reach(self.pieces@, moved_piece, attacked_piece),
    {
        let x_move: i8 = attacked_piece.position.x as i8 - moved_piece.position.x as i8;
        let y_move: i8 = attacked_piece.position.y as i8 - moved_piece.position.y as i8;
        let x_abs: i8 = if x_move < 0 { -x_move } else { x_move };
        let y_abs: i8 = if y_move < 0 { -y_move } else { y_move };
        let target_empty = attacked_piece.piece_type == PieceType::Empty;
        match moved_piece.piece_type {
            PieceType::Empty => false,
            PieceType::Pawn => {
                let forward: i8 = match moved_piece.color {
                    Color::White => -1,
                    Color::Black => 1,
                };
                if y_move == forward && x_move == 0 && target_empty {
                    true
                } else if !moved_piece.has_moved && y_move == 2 * forward && x_move == 0
                    && target_empty {
                    !self.is_jumping_vertically(moved_piece, y_move)
                } else {
                    y_move == forward && (x_move == 1 || x_move == -1) && !target_empty
                }
            },
            PieceType::Knight => (x_abs == 2 && y_abs == 1) || (x_abs == 1 && y_abs == 2),
            PieceType::Bishop => self.reaches_diagonally(moved_piece, attacked_piece),
            PieceType::Rook => self.reaches_straight(moved_piece, attacked_piece),
            PieceType::Queen => {
                if moved_piece.position.x == attacked_piece.position.x || moved_piece.position.y
                    == attacked_piece.position.y {
                    self.reaches_straight(moved_piece, attacked_piece)
                } else {
                    self.reaches_diagonally(moved_piece, attacked_piece)
                }
            },
            PieceType::King => x_abs <= 1 && y_abs <= 1 && !(x_move == 0 && y_move == 0),
        }
    }

    /// Returns all pieces of a specified color/side.
    fn get_all_color_pieces(&self, color: Color) -> (r: Vec<Piece>)
        requires
            wf_squares(self.pieces@),
        ensures
            r@ == self.pieces@.filter(of_side(color)),
            forall|j: int|
                0 <= j < r.len() ==> (#[trigger] r@[j]).belongs_to(color)
                    && r@[j].position.valid() && self.pieces@[r@[j].position.idx()] == r@[j],
            forall|i: int|
                0 <= i < 64 && (#[trigger] self.pieces@[i]).belongs_to(color) ==> r@.contains(
                    self.pieces@[i],
                ),
    {
        let mut found: Vec<Piece> = Vec::new();
        let mut i: usize = 0;
        while i < 64
            invariant
                i <= 64,
                wf_squares(self.pieces@),
                found@ == self.pieces@.subrange(0, i as int).filter(of_side(color)),
                forall|j: int|
                    0 <= j < found.len() ==> (#[trigger] found@[j]).belongs_to(color)
                        && found@[j].position.valid() && self.pieces@[found@[j].position.idx()]
                        == found@[j],
                forall|k: int|
                    0 <= k < i && (#[trigger] self.pieces@[k]).belongs_to(color)
                        ==> found@.contains(self.pieces@[k]),
            decreases 64 - i,
        {
            let piece = self.pieces[i];
            proof {
                let pre = self.pieces@.subrange(0, i as int);
                assert(self.pieces@.subrange(0, i + 1) =~= pre.push(piece));
                pre.lemma_filter_push(piece, of_side(color));
            }
            if piece.color == color && piece.piece_type != PieceType::Empty {
                let ghost before = found@;
                found.push(piece);
                assert(found@[found.len() - 1] == piece);
                assert forall|k: int|
                    0 <= k < i && (#[trigger] self.pieces@[k]).belongs_to(color) implies found@.contains(
                    self.pieces@[k],
                ) by {
                    let j = choose|j: int| 0 <= j < before.len() && before[j] == self.pieces@[k];
                    assert(found@[j] == self.pieces@[k]);
                }
            }
            i = i + 1;
        }
        assert(self.pieces@.subrange(0, 64) =~= self.pieces@);
        found
    }

    /// Returns the king of the specified color/side.
    fn get_king(&self, king_color: Color) -> (r: Piece)
        requires
            wf_squares(self.pieces@),
            one_king(self.pieces@, king_color),
        ensures
            is_king_of(r, king_color),
            r.position.valid(),
            self.pieces@[r.position.idx()] == r,
    {
        let mut i: usize = 0;
        while i < 64
            invariant
                i <= 64,
                wf_squares(self.pieces@),
                one_king(self.pieces@, king_color),
                forall|k: int| 0 <= k < i ==> !is_king_of(#[trigger] self.pieces@[k], king_color),
            decreases 64 - i,
        {
            let piece = self.pieces[i];
            if piece.color == king_color && piece.piece_type == PieceType::King {
                return piece;
            }
            i = i + 1;
        }
        let ghost k = choose|k: int| 0 <= k < 64 && is_king_of(#[trigger] self.pieces@[k], king_color);
        assert(is_king_of(self.pieces@[k], king_color));
        self.pieces[0]
    }

    /// Checks if the given side is in check.
    pub fn in_check(&self, king_color: Color) -> (r: bool)
        requires
            wf_squares(self@.squares),
            one_king(self@.squares, king_color),
        ensures
            r == in_check(self@.squares, king_color),
    {
        let attacking_pieces = self.get_all_color_pieces(king_color.flip());
        let defending_king = self.get_king(king_color);
        let mut j: usize = 0;
        while j < attacking_pieces.len()
            invariant
                j <= attacking_pieces.len(),
                wf_squares(self.pieces@),
                one_king(self.pieces@, king_color),
                is_king_of(defending_king, king_color),
                defending_king.position.valid(),
                self.pieces@[defending_king.position.idx()] == defending_king,
                forall|a: int|
                    0 <= a < attacking_pieces.len() ==> (#[trigger] attacking_pieces@[a]).belongs_to(
                        king_color.flipped(),
                    ) && attacking_pieces@[a].position.valid()
                        && self.pieces@[attacking_pieces@[a].position.idx()]
                        == attacking_pieces@[a],
                forall|a: int|
                    0 <= a < j ==> !can_reach(
                        self.pieces@,
                        #[trigger] attacking_pieces@[a],
                        defending_king,
                    ),
            decreases attacking_pieces.len() - j,
        {
            let piece = attacking_pieces[j];
            if self.reaches(piece, defending_king) {
                let ghost i = piece.position.idx();
                let ghost k = defending_king.position.idx();
                assert(can_reach(self.pieces@, self.pieces@[i], self.pieces@[k]));
                return true;
            }
            j = j + 1;
        }
        let ghost sq = self.pieces@;
        assert forall|i: int, k: int|
            0 <= i < 64 && 0 <= k < 64 && is_king_of(sq[k], king_color) && sq[i].belongs_to(
                king_color.flipped(),
            ) implies !#[trigger] can_reach(sq, sq[i], sq[k]) by {
            assert(is_king_of(sq[defending_king.position.idx()], king_color));
            assert(sq[k] == defending_king);
            assert(attacking_pieces@.contains(sq[i]));
            let a = choose|a: int| 0 <= a < attacking_pieces.len() && attacking_pieces@[a] == sq[i];
            assert(!can_reach(sq, attacking_pieces@[a], defending_king));
        }
        false
    }

    /// Moves a piece to a specified location.
    fn do_move(&mut self, moved_piece: Piece, attacked_piece: Piece)
        requires
            wf_squares(old(self).pieces@),
            moved_piece.position.valid(),
            attacked_piece.position.valid(),
        ensures
            final(self).pieces@ == old(self).pieces@.update(
                attacked_piece.position.idx(),
                Piece {
                    piece_type: moved_piece.piece_type,
                    position: attacked_piece.position,
                    color: moved_piece.color,
                    has_moved: true,
                },
            ).update(
                moved_piece.position.idx(),
                Piece::fresh(PieceType::Empty, moved_piece.position, Color::White),
            ),
            old(self).pieces@[moved_piece.position.idx()] == moved_piece ==> final(self).pieces@
                == relocate(old(self).pieces@, moved_piece.position, attacked_piece.position),
            final(self).turn == old(self).turn,
            final(self).last_piece_moved == old(self).last_piece_moved,
            final(self).last_move_double_step == old(self).last_move_double_step,
            final(self).previous_pieces == old(self).previous_pieces,
    {
        let to = attacked_piece.position;
        let from = moved_piece.position;
        self.pieces[square_index(to.x, to.y)] = Piece {
            piece_type: moved_piece.piece_type,
            position: to,
            color: moved_piece.color,
            has_moved: true,
        };
        self.pieces[square_index(from.x, from.y)] = Piece::new(PieceType::Empty, from, Color::White);
    }

    /// Sets the board back to the last move.
    fn undo_move(&mut self)
        ensures
            final(self).pieces == old(self).previous_pieces,
            final(self).turn == old(self).turn,
            final(self).last_piece_moved == old(self).last_piece_moved,
            final(self).last_move_double_step == old(self).last_move_double_step,
            final(self).previous_pieces == old(self).previous_pieces,
    {
        self.pieces = self.previous_pieces;
    }

    /// Checks if the side in check is in checkmate: whether no ordinary move
    /// of `color`, played on the board, leaves `color` out of check.
    pub fn is_checkmate(&mut self, color: Color) -> (r: bool)
        requires
            old(self).wf(),
        ensures
            r == !has_escape(old(self)@.squares, color),
            final(self)@ == old(self)@,
            final(self).wf(),
            final(self)@.valid(),
    {
        let ghost sq = self.pieces@;
        let defending_pieces = self.get_all_color_pieces(color);
        let mut j: usize = 0;
        while j < 64
            invariant
                j <= 64,
                self.pieces@ == sq,
                self.previous_pieces@ == sq,
                self.turn == old(self).turn,
                self.last_piece_moved == old(self).last_piece_moved,
                self.last_move_double_step == old(self).last_move_double_step,
                sq == old(self).pieces@,
                old(self).wf(),
                forall|a: int|
                    0 <= a < defending_pieces.len() ==> (#[trigger] defending_pieces@[a]).belongs_to(
                        color,
                    ) && defending_pieces@[a].position.valid()
                        && sq[defending_pieces@[a].position.idx()] == defending_pieces@[a],
                forall|i: int| 0 <= i < 64 && (#[trigger] sq[i]).belongs_to(color)
                    ==> defending_pieces@.contains(sq[i]),
                forall|a: int, jj: int|
                    0 <= a < defending_pieces.len() && 0 <= jj < j ==> !#[trigger] escapes(
                        sq,
                        color,
                        defending_pieces@[a].position.idx(),
                        jj,
                    ),
            decreases 64 - j,
        {
            let attacked_piece = self.pieces[j];
            let mut a: usize = 0;
            while a < defending_pieces.len()
                invariant
                    j < 64,
                    a <= defending_pieces.len(),
                    attacked_piece == sq[j as int],
                    self.pieces@ == sq,
                    self.previous_pieces@ == sq,
                    self.turn == old(self).turn,
                    self.last_piece_moved == old(self).last_piece_moved,
                    self.last_move_double_step == old(self).last_move_double_step,
                    sq == old(self).pieces@,
                    old(self).wf(),
                    forall|b: int|
                        0 <= b < defending_pieces.len() ==> (#[trigger] defending_pieces@[b]).belongs_to(
                            color,
                        ) && defending_pieces@[b].position.valid()
                            && sq[defending_pieces@[b].position.idx()] == defending_pieces@[b],
                    forall|b: int, jj: int|
                        0 <= b < defending_pieces.len() && 0 <= jj < j ==> !#[trigger] escapes(
                            sq,
                            color,
                            defending_pieces@[b].position.idx(),
                            jj,
                        ),
                    forall|b: int|
                        0 <= b < a ==> !#[trigger] escapes(
                            sq,
                            color,
                            defending_pieces@[b].position.idx(),
                            j as int,
                        ),
                decreases defending_pieces.len() - a,
            {
                let moved_piece = defending_pieces[a];
                let ghost i = moved_piece.position.idx();
                if self.reaches(moved_piece, attacked_piece) && !(attacked_piece.color == color
                    && attacked_piece.piece_type != PieceType::Empty) {
                    proof {
                        lemma_relocate_wf(sq, moved_piece.position, attacked_piece.position);
                        lemma_relocate_one_king(sq, moved_piece.position, attacked_piece.position, color);
                    }
                    self.do_move(moved_piece, attacked_piece);
                    if self.in_check(color) {
                        self.undo_move();
                    } else {
                        self.undo_move();
                        assert(escapes(sq, color, i, j as int));
                        return false;
                    }
                }
                assert(!escapes(sq, color, i, j as int));
                a = a + 1;
            }
            j = j + 1;
        }
        assert forall|i: int, jj: int| 0 <= i < 64 && 0 <= jj < 64
            implies !#[trigger] escapes(sq, color, i, jj) by {
            if sq[i].belongs_to(color) {
                assert(defending_pieces@.contains(sq[i]));
                let b = choose|b: int| 0 <= b < defending_pieces.len() && defending_pieces@[b] == sq[i];
                assert(!escapes(sq, color, defending_pieces@[b].position.idx(), jj));
            }
        }
        true
    }

    /// Whether side `color` may start to castle (see `castle_ready`).
    fn castling_allowed(&self, color: Color, short: bool) -> (r: bool)
        requires
            wf_squares(self.pieces@),
            one_king(self.pieces@, color),
        ensures
            r == castle_ready(self.pieces@, color, short),
    {
        let rank: u8 = match color {
            Color::White => 7,
            Color::Black => 0,
        };
        let king = self.pieces[square_index(4, rank)];
        let rook = self.pieces[square_index(if short { 7 } else { 0 }, rank)];
        proof {
            lemma_index_unique(king.position, square(4, rank as int));
        }
        king.piece_type == PieceType::King && king.color == color && !king.has_moved
            && rook.piece_type == PieceType::Rook && rook.color == color && !rook.has_moved
            && !self.is_jumping_horizontally(king, if short { 3 } else { -4 })
            && !self.in_check(color)
    }

    /// Walks the king of `color` towards its castling square one square at a
    /// time, testing for check after each step, then brings the rook over
    /// (which cannot expose the king).
    /// Returns true, with the squares restored from the snapshot, when some
    /// step leaves `color` in check.
    fn castle_walk_checks(&mut self, color: Color, short: bool) -> (failed: bool)
        requires
            wf_squares(old(self).pieces@),
            one_king(old(self).pieces@, Color::White),
            one_king(old(self).pieces@, Color::Black),
            castle_placed(old(self).pieces@, color, short),
            old(self).previous_pieces == old(self).pieces,
        ensures
            failed == !castle_safe(old(self).pieces@, color, short),
            failed ==> *final(self) == *old(self),
            !failed ==> final(self).pieces@ == castled(
                old(self).pieces@,
                color.home_rank() as int,
                short,
            ),
            !failed ==> final(self).turn == old(self).turn.flipped(),
            !failed ==> final(self).last_piece_moved == final(self).pieces@[8 * color.home_rank()
                + rook_file(short)],
            !failed ==> final(self).previous_pieces == old(self).previous_pieces,
            !failed ==> !final(self).last_move_double_step,
            !failed ==> wf_squares(final(self).pieces@),
            !failed ==> one_king(final(self).pieces@, color),
            !failed ==> one_king(final(self).pieces@, color.flipped()),
            !failed ==> !in_check(final(self).pieces@, color),
    {
        let ghost sq = self.pieces@;
        let rank: u8 = match color {
            Color::White => 7,
            Color::Black => 0,
        };
        let ghost r = rank as int;
        let steps: u8 = if short { 2 } else { 3 };
        proof {
            assert forall|m: int| 0 < m <= castle_steps(short)
                implies #[trigger] vacant(sq, walk_file(short, m), r) by {
                if short {
                    assert(strictly_between(m, 3));
                    assert(vacant_on_rank(sq, square(4, r), m));
                } else {
                    assert(strictly_between(-m, -4));
                    assert(vacant_on_rank(sq, square(4, r), -m));
                }
            }
        }
        let mut k: u8 = 0;
        while k < steps
            invariant
                k <= steps,
                steps as int == castle_steps(short),
                r == color.home_rank(),
                rank as int == r,
                sq == old(self).pieces@,
                old(self).previous_pieces == old(self).pieces,
                self.previous_pieces == old(self).pieces,
                self.turn == old(self).turn,
                self.last_piece_moved == old(self).last_piece_moved,
                self.last_move_double_step == old(self).last_move_double_step,
                self.pieces@ == castle_walk(sq, r, short, k as nat),
                wf_squares(self.pieces@),
                one_king(self.pieces@, color),
                one_king(self.pieces@, color.flipped()),
                is_king_of(self.pieces@[8 * r + walk_file(short, k as int)], color),
                forall|m: int| k < m <= castle_steps(short)
                    ==> #[trigger] vacant(self.pieces@, walk_file(short, m), r),
                forall|m: int| 0 <= m < k
                    ==> #[trigger] vacant(self.pieces@, walk_file(short, m), r),
                self.pieces@[8 * r + corner_file(short)] == sq[8 * r + corner_file(short)],
                forall|n: nat| 1 <= n <= k
                    ==> !in_check(#[trigger] castle_walk(sq, r, short, n), color),
            decreases steps - k,
        {
            let ghost w = self.pieces@;
            let from_x: u8 = if short { 4 + k } else { 4 - k };
            let to_x: u8 = if short { 5 + k } else { 3 - k };
            let king = self.pieces[square_index(from_x, rank)];
            let target = self.pieces[square_index(to_x, rank)];
            proof {
                lemma_index_unique(king.position, square(from_x as int, r));
                lemma_index_unique(target.position, square(to_x as int, r));
                assert(vacant(w, walk_file(short, k + 1), r));
                lemma_relocate_wf(w, king.position, target.position);
                lemma_relocate_one_king(w, king.position, target.position, color);
                lemma_relocate_one_king(w, king.position, target.position, color.flipped());
            }
            self.do_move(king, target);
            assert(self.pieces@ == castle_walk(sq, r, short, (k + 1) as nat));
            if self.in_check(color) {
                self.undo_move();
                assert(self.pieces =~= old(self).pieces);
                return true;
            }
            proof {
                let w2 = self.pieces@;
                assert forall|m: int| k + 1 < m <= castle_steps(short)
                    implies #[trigger] vacant(w2, walk_file(short, m), r) by {
                    assert(vacant(w, walk_file(short, m), r));
                }
                assert forall|m: int| 0 <= m < k + 1
                    implies #[trigger] vacant(w2, walk_file(short, m), r) by {
                    if m < k {
                        assert(vacant(w, walk_file(short, m), r));
                    }
                }
            }
            k = k + 1;
        }
        let ghost w = self.pieces@;
        let corner_x: u8 = if short { 7 } else { 0 };
        let rook_x: u8 = if short { 5 } else { 2 };
        let rook = self.pieces[square_index(corner_x, rank)];
        let landing = self.pieces[square_index(rook_x, rank)];
        proof {
            lemma_index_unique(rook.position, square(corner_x as int, r));
            lemma_index_unique(landing.position, square(rook_x as int, r));
            if short {
                assert(vacant(w, walk_file(short, 1), r));
            } else {
                assert(vacant(w, walk_file(short, 2), r));
            }
            lemma_relocate_wf(w, rook.position, landing.position);
            lemma_relocate_one_king(w, rook.position, landing.position, color);
            lemma_relocate_one_king(w, rook.position, landing.position, color.flipped());
            assert(castle_walk(sq, r, short, steps as nat) == w);
            lemma_rook_leaves_corner(w, color, short);
        }
        self.do_move(rook, landing);
        self.last_piece_moved = self.pieces[square_index(rook_x, rank)];
        self.last_move_double_step = false;
        self.turn = self.turn.flip();
        false
    }

    /// Attempts to castle short, and moves the pieces if successful.
    fn short_castling_checks(&mut self, is_white: bool) -> (failed: bool)
        requires
            wf_squares(old(self).pieces@),
            one_king(old(self).pieces@, Color::White),
            one_king(old(self).pieces@, Color::Black),
            castle_placed(
                old(self).pieces@,
                if is_white {
                    Color::White
                } else {
                    Color::Black
                },
                true,
            ),
            old(self).previous_pieces == old(self).pieces,
        ensures
            ({
                let c = if is_white { Color::White } else { Color::Black };
                &&& failed == !castle_safe(old(self).pieces@, c, true)
                &&& failed ==> *final(self) == *old(self)
                &&& !failed ==> final(self).pieces@
                    == castled(old(self).pieces@, c.home_rank() as int, true)
                &&& !failed ==> final(self).turn == old(self).turn.flipped()
                &&& !failed ==> final(self).last_piece_moved
                    == final(self).pieces@[8 * c.home_rank() + rook_file(true)]
                &&& !failed ==> final(self).previous_pieces == old(self).previous_pieces
                &&& !failed ==> !final(self).last_move_double_step
                &&& !failed ==> wf_squares(final(self).pieces@)
                &&& !failed ==> one_king(final(self).pieces@, c)
                &&& !failed ==> one_king(final(self).pieces@, c.flipped())
                &&& !failed ==> !in_check(final(self).pieces@, c)
            }),
    {
        self.castle_walk_checks(if is_white { Color::White } else { Color::Black }, true)
    }

    /// Attempts to castle long, and moves the pieces if successful.
    fn long_castling_checks(&mut self, is_white: bool) -> (failed: bool)
        requires
            wf_squares(old(self).pieces@),
            one_king(old(self).pieces@, Color::White),
            one_king(old(self).pieces@, Color::Black),
            castle_placed(
                old(self).pieces@,
                if is_white {
                    Color::White
                } else {
                    Color::Black
                },
                false,
            ),
            old(self).previous_pieces == old(self).pieces,
        ensures
            ({
                let c = if is_white { Color::White } else { Color::Black };
                &&& failed == !castle_safe(old(self).pieces@, c, false)
                &&& failed ==> *final(self) == *old(self)
                &&& !failed ==> final(self).pieces@
                    == castled(old(self).pieces@, c.home_rank() as int, false)
                &&& !failed ==> final(self).turn == old(self).turn.flipped()
                &&& !failed ==> final(self).last_piece_moved
                    == final(self).pieces@[8 * c.home_rank() + rook_file(false)]
                &&& !failed ==> final(self).previous_pieces == old(self).previous_pieces
                &&& !failed ==> !final(self).last_move_double_step
                &&& !failed ==> wf_squares(final(self).pieces@)
                &&& !failed ==> one_king(final(self).pieces@, c)
                &&& !failed ==> one_king(final(self).pieces@, c.flipped())
                &&& !failed ==> !in_check(final(self).pieces@, c)
            }),
    {
        self.castle_walk_checks(if is_white { Color::White } else { Color::Black }, false)
    }

    /// Verifies if a given piece can move to the given position according to
    /// its movement options; `Valid` exactly when its ordinary movement rule
    /// allows it, whatever stands on either square. For a move of the side to
    /// move that does not land on its own piece, en passant and castling are
    /// carried out here when their own checks pass.
    fn is_move_valid(&mut self, moved_piece: Piece, attacked_piece: Piece) -> (r: MoveValidity)
        requires
            old(self).wf(),
            moved_piece.position.valid(),
            attacked_piece.position.valid(),
            old(self).pieces@[moved_piece.position.idx()] == moved_piece,
            old(self).pieces@[attacked_piece.position.idx()] == attacked_piece,
        ensures
            ({
                let st = old(self)@;
                let from = moved_piece.position;
                let to = attacked_piece.position;
                &&& (r == MoveValidity::Valid) == can_reach(st.squares, moved_piece, attacked_piece)
                &&& !st.prechecks(from, to) ==> (r == MoveValidity::Valid || r
                    == MoveValidity::Invalid)
                &&& st.prechecks(from, to) ==> r == match st.classify(from, to) {
                    MoveValidity::Valid => MoveValidity::Valid,
                    MoveValidity::EnPassant => if st.accepts(from, to) {
                        MoveValidity::EnPassant
                    } else {
                        MoveValidity::Invalid
                    },
                    MoveValidity::ShortCastle => if st.accepts(from, to) {
                        MoveValidity::ShortCastle
                    } else {
                        MoveValidity::Invalid
                    },
                    MoveValidity::LongCastle => if st.accepts(from, to) {
                        MoveValidity::LongCastle
                    } else {
                        MoveValidity::Invalid
                    },
                    MoveValidity::Invalid => MoveValidity::Invalid,
                }
                &&& (r == MoveValidity::Valid || r == MoveValidity::Invalid) ==> *final(self)
                    == *old(self)
                &&& r == MoveValidity::EnPassant ==> {
                    &&& final(self).pieces@ == st.landing(from, to)
                    &&& final(self).turn == old(self).turn
                    &&& final(self).last_piece_moved == final(self).pieces@[to.idx()]
                    &&& final(self).last_move_double_step == old(self).last_move_double_step
                    &&& final(self).previous_pieces == old(self).previous_pieces
                    &&& wf_squares(final(self).pieces@)
                    &&& one_king(final(self).pieces@, Color::White)
                    &&& one_king(final(self).pieces@, Color::Black)
                }
                &&& (r == MoveValidity::ShortCastle || r == MoveValidity::LongCastle) ==> {
                    &&& final(self)@ == st.after(from, to)
                    &&& final(self)@.valid()
                }
            }),
    {
        let ghost sq = self.pieces@;
        proof {
            assert(self.previous_pieces =~= self.pieces);
        }
        if self.reaches(moved_piece, attacked_piece) {
            return MoveValidity::Valid;
        }
        let color = moved_piece.color;
        if moved_piece.piece_type == PieceType::Empty || moved_piece.position
            == attacked_piece.position || color != self.turn || (attacked_piece.color == self.turn
            && attacked_piece.piece_type != PieceType::Empty) {
            return MoveValidity::Invalid;
        }
        let x_move: i8 = attacked_piece.position.x as i8 - moved_piece.position.x as i8;
        let y_move: i8 = attacked_piece.position.y as i8 - moved_piece.position.y as i8;
        if moved_piece.piece_type == PieceType::Pawn {
            let forward: i8 = match color {
                Color::White => -1,
                Color::Black => 1,
            };
            let pawn_row: u8 = match color {
                Color::White => 3,
                Color::Black => 4,
            };
            let passed = Position::new(attacked_piece.position.x, moved_piece.position.y);
            if attacked_piece.piece_type == PieceType::Empty && y_move == forward && (x_move == 1
                || x_move == -1) && moved_piece.position.y == pawn_row
                && self.last_move_double_step && self.last_piece_moved.piece_type == PieceType::Pawn
                && self.last_piece_moved.position == passed {
                proof {
                    let u = sq.update(passed.idx(), Piece::fresh(PieceType::Empty, passed, Color::Black));
                    lemma_clear_square(sq, passed, Color::White);
                    lemma_clear_square(sq, passed, Color::Black);
                    assert(u[attacked_piece.position.idx()] == attacked_piece);
                    assert(u[moved_piece.position.idx()] == moved_piece);
                    lemma_relocate_wf(u, moved_piece.position, attacked_piece.position);
                    lemma_relocate_one_king(u, moved_piece.position, attacked_piece.position, Color::White);
                    lemma_relocate_one_king(u, moved_piece.position, attacked_piece.position, Color::Black);
                }
                self.pieces[square_index(passed.x, passed.y)] = Piece::new(
                    PieceType::Empty,
                    passed,
                    Color::Black,
                );
                self.do_move(moved_piece, attacked_piece);
                if self.in_check(self.turn) {
                    self.undo_move();
                    assert(self.pieces =~= old(self).pieces);
                    return MoveValidity::Invalid;
                }
                self.last_piece_moved = self.pieces[square_index(
                    attacked_piece.position.x,
                    attacked_piece.position.y,
                )];
                return MoveValidity::EnPassant;
            }
        }
        if moved_piece.piece_type == PieceType::King {
            let rank: u8 = match color {
                Color::White => 7,
                Color::Black => 0,
            };
            if moved_piece.position == Position::new(4, rank) && attacked_piece.position
                == Position::new(6, rank) && self.castling_allowed(color, true) {
                if self.short_castling_checks(color == Color::White) {
                    return MoveValidity::Invalid;
                }
                return MoveValidity::ShortCastle;
            }
            if moved_piece.position == Position::new(4, rank) && attacked_piece.position
                == Position::new(1, rank) && self.castling_allowed(color, false) {
                if self.long_castling_checks(color == Color::White) {
                    return MoveValidity::Invalid;
                }
                return MoveValidity::LongCastle;
            }
        }
        MoveValidity::Invalid
    }

    /// Returns the piece notation for the played move.
    fn make_piece_notation(
        moved_piece: Piece,
        attacked_piece: Piece,
        piece_captured: bool,
        en_passant: bool,
        check_checkmate: &str,
    ) -> (r: String)
        requires
            moved_piece.position.valid(),
            attacked_piece.position.valid(),
        ensures
            r@ == move_text(
                moved_piece,
                attacked_piece,
                piece_captured,
                en_passant,
                check_checkmate@,
            ),
    {
        let mut text = String::new();
        if moved_piece.piece_type == PieceType::Pawn && piece_captured {
            text.append(file_name(moved_piece.position.x));
        } else {
            text.append(kind_name(moved_piece.piece_type));
        }
        if piece_captured {
            proof {
                reveal_strlit("x");
            }
            text.append("x");
        }
        text.append(file_name(attacked_piece.position.x));
        text.append(rank_name(attacked_piece.position.y));
        if en_passant {
            proof {
                reveal_strlit(" e.p.");
            }
            text.append(" e.p.");
        }
        text.append(check_checkmate);
        proof {
            let prefix = if moved_piece.piece_type == PieceType::Pawn && piece_captured {
                seq![file_letter(moved_piece.position.x as int)]
            } else {
                kind_letter(moved_piece.piece_type)
            };
            let capture: Seq<char> = if piece_captured { seq!['x'] } else { seq![] };
            let square = seq![
                file_letter(attacked_piece.position.x as int),
                rank_digit(attacked_piece.position.y as int),
            ];
            let marker: Seq<char> = if en_passant { seq![' ', 'e', '.', 'p', '.'] } else { seq![] };
            assert(seq![file_letter(attacked_piece.position.x as int)] + seq![
                rank_digit(attacked_piece.position.y as int)] =~= square);
            assert(text@ =~= prefix + capture + square + marker + check_checkmate@);
        }
        text
    }

    /// Tries to move a piece given a start and end position. Returns the
    /// move's notation when it is played, and `None`, with the board left as
    /// it was, when it is refused.
    pub fn move_piece(&mut self, old_position: Position, new_position: Position) -> (r: Option<
        String,
    >)
        requires
            old(self).wf(),
            old_position.valid(),
            new_position.valid(),
        ensures
            final(self).wf(),
            final(self)@.valid(),
            r is Some <==> old(self)@.accepts(old_position, new_position),
            r is None ==> *final(self) == *old(self),
            r is Some ==> final(self)@ == old(self)@.after(old_position, new_position),
            r is Some ==> r->0@ == old(self)@.notation(old_position, new_position),
    {
        let ghost st = self@;
        let ghost sq = self.pieces@;
        proof {
            assert(self.previous_pieces =~= self.pieces);
        }
        self.previous_pieces = self.pieces;
        let moved_piece = self.pieces[square_index(old_position.x, old_position.y)];
        let attacked_piece = self.pieces[square_index(new_position.x, new_position.y)];
        proof {
            lemma_index_unique(moved_piece.position, old_position);
            lemma_index_unique(attacked_piece.position, new_position);
        }
        if moved_piece.piece_type == PieceType::Empty || old_position == new_position || self.turn
            != moved_piece.color || (self.turn == attacked_piece.color
            && attacked_piece.piece_type != PieceType::Empty) {
            return None;
        }
        let mut en_passant = false;
        match self.is_move_valid(moved_piece, attacked_piece) {
            MoveValidity::Valid => {},
            MoveValidity::EnPassant => {
                en_passant = true;
            },
            MoveValidity::ShortCastle => {
                self.previous_pieces = self.pieces;
                proof {
                    reveal_strlit("O-O");
                }
                return Some(String::from_str("O-O"));
            },
            MoveValidity::LongCastle => {
                self.previous_pieces = self.pieces;
                proof {
                    reveal_strlit("O-O-O");
                }
                return Some(String::from_str("O-O-O"));
            },
            MoveValidity::Invalid => {
                return None;
            },
        }
        let piece_captured = en_passant || attacked_piece.piece_type != PieceType::Empty;
        if en_passant {
            self.last_move_double_step = false;
        } else {
            proof {
                lemma_relocate_wf(sq, old_position, new_position);
                lemma_relocate_one_king(sq, old_position, new_position, self.turn);
                if is_king_of(sq[new_position.idx()], self.turn.flipped()) {
                    assert(can_reach(sq, sq[old_position.idx()], sq[new_position.idx()]));
                    assert(in_check(sq, self.turn.flipped()));
                }
                lemma_relocate_one_king(sq, old_position, new_position, self.turn.flipped());
            }
            self.do_move(moved_piece, attacked_piece);
            if self.in_check(self.turn) {
                self.undo_move();
                return None;
            }
            self.last_piece_moved = self.pieces[square_index(new_position.x, new_position.y)];
            self.last_move_double_step = moved_piece.piece_type == PieceType::Pawn && (
            new_position.y as i8 - old_position.y as i8 == 2 || new_position.y as i8
                - old_position.y as i8 == -2);
        }
        self.turn = self.turn.flip();
        self.previous_pieces = self.pieces;
        let mut check_checkmate = "";
        proof {
            reveal_strlit("");
            reveal_strlit("+");
            reveal_strlit("#");
        }
        if self.in_check(self.turn) {
            check_checkmate = "+";
            if self.is_checkmate(self.turn) {
                check_checkmate = "#";
            }
        }
        Some(Board::make_piece_notation(
            moved_piece,
            attacked_piece,
            piece_captured,
            en_passant,
            check_checkmate,
        ))
    }
}

/// The name of file `x`.
fn file_name(x: u8) -> (r: &'static str)
    requires
        x < 8,
    ensures
        r@ == seq![file_letter(x as int)],
{
    match x {
        0 => {
            proof {
                reveal_strlit("a");
            }
            "a"
        },
        1 => {
            proof {
                reveal_strlit("b");
            }
            "b"
        },
        2 => {
            proof {
                reveal_strlit("c");
            }
            "c"
        },
        3 => {
            proof {
                reveal_strlit("d");
            }
            "d"
        },
        4 => {
            proof {
                reveal_strlit("e");
            }
            "e"
        },
        5 => {
            proof {
                reveal_strlit("f");
            }
            "f"
        },
        6 => {
            proof {
                reveal_strlit("g");
            }
            "g"
        },
        _ => {
            proof {
                reveal_strlit("h");
            }
            "h"
        },
    }
}

/// The rank number of row `y`.
fn rank_name(y: u8) -> (r: &'static str)
    requires
        y < 8,
    ensures
        r@ == seq![rank_digit(y as int)],
{
    match y {
        0 => {
            proof {
                reveal_strlit("8");
            }
            "8"
        },
        1 => {
            proof {
                reveal_strlit("7");
            }
            "7"
        },
        2 => {
            proof {
                reveal_strlit("6");
            }
            "6"
        },
        3 => {
            proof {
                reveal_strlit("5");
            }
            "5"
        },
        4 => {
            proof {
                reveal_strlit("4");
            }
            "4"
        },
        5 => {
            proof {
                reveal_strlit("3");
            }
            "3"
        },
        6 => {
            proof {
                reveal_strlit("2");
            }
            "2"
        },
        _ => {
            proof {
                reveal_strlit("1");
            }
            "1"
        },
    }
}

/// The letter of a piece kind.
fn kind_name(kind: PieceType) -> (r: &'static str)
    ensures
        r@ == kind_letter(kind),
{
    proof {
        reveal_strlit("");
        reveal_strlit("N");
        reveal_strlit("B");
        reveal_strlit("R");
        reveal_strlit("Q");
        reveal_strlit("K");
    }
    match kind {
        PieceType::Empty => "",
        PieceType::Pawn => "",
        PieceType::Knight => "N",
        PieceType::Bishop => "B",
        PieceType::Rook => "R",
        PieceType::Queen => "Q",
        PieceType::King => "K",
    }
}


/// The piece recorded as moved last before any move: an empty square.
pub open spec fn no_piece() -> Piece {
    Piece::fresh(PieceType::Empty, Position { x: 0, y: 0 }, Color::Black)
}

/// The standard starting position, White to move.
pub open spec fn start_state() -> BoardState {
    BoardState {
        squares: start_squares(),
        turn: Color::White,
        last_moved: no_piece(),
        double_step: false,
    }
}

/// The starting position is one the engine can play on.
pub proof fn lemma_start_valid()
    ensures
        start_state().valid(),
{
    let sq = start_squares();
    assert forall|i: int| 0 <= i < 64
        implies (#[trigger] sq[i]).position.valid() && sq[i].position.idx() == i by {
        assert(sq[i] == start_piece((i % 8) as u8, (i / 8) as u8));
    }
    assert(is_king_of(sq[60], Color::White));
    assert(is_king_of(sq[4], Color::Black));
    assert forall|k: int| 0 <= k < 64 && is_king_of(#[trigger] sq[k], Color::White)
        implies k == 60 by {
        assert(sq[k] == start_piece((k % 8) as u8, (k / 8) as u8));
    }
    assert forall|k: int| 0 <= k < 64 && is_king_of(#[trigger] sq[k], Color::Black)
        implies k == 4 by {
        assert(sq[k] == start_piece((k % 8) as u8, (k / 8) as u8));
    }
    assert forall|i: int, k: int|
        0 <= i < 64 && 0 <= k < 64 && is_king_of(sq[k], Color::Black) && sq[i].belongs_to(
            Color::White,
        ) implies !#[trigger] can_reach(sq, sq[i], sq[k]) by {
        assert(k == 4);
        assert(sq[i] == start_piece((i % 8) as u8, (i / 8) as u8));
        assert(sq[4] == start_piece(4, 0));
    }
}

impl Default for Board {
    fn default() -> (r: Board)
        ensures
            r@ == start_state(),
            r.wf(),
            r@.valid(),
    {
        let board = Board {
            pieces: starting_pieces(),
            turn: Color::White,
            last_piece_moved: Piece::new(PieceType::Empty, Position::new(0, 0), Color::Black),
            last_move_double_step: false,
            previous_pieces: starting_pieces(),
        };
        proof {
            lemma_start_valid();
            assert(board.previous_pieces =~= board.pieces);
        }
        board
    }
}


/// Whether every square records its own position.
fn positions_consistent(pieces: &[Piece; 64]) -> (r: bool)
    ensures
        r == wf_squares(pieces@),
{
    let mut i: usize = 0;
    while i < 64
        invariant
            i <= 64,
            pieces@.len() == 64,
            forall|k: int|
                0 <= k < i ==> (#[trigger] pieces@[k]).position.valid() && pieces@[k].position.idx()
                    == k,
        decreases 64 - i,
    {
        let p = pieces[i].position;
        if p.x >= 8 || p.y >= 8 || square_index(p.x, p.y) != i {
            return false;
        }
        i = i + 1;
    }
    true
}

/// Whether side `color` has exactly one king among `pieces`.
fn has_one_king(pieces: &[Piece; 64], color: Color) -> (r: bool)
    ensures
        r == one_king(pieces@, color),
{
    let mut first: Option<usize> = None;
    let mut i: usize = 0;
    while i < 64
        invariant
            i <= 64,
            pieces@.len() == 64,
            first is None ==> forall|k: int| 0 <= k < i ==> !is_king_of(#[trigger] pieces@[k], color),
            first is Some ==> first->0 < i && is_king_of(pieces@[first->0 as int], color) && forall|
                k: int,
            | 0 <= k < i && k != first->0 ==> !is_king_of(#[trigger] pieces@[k], color),
        decreases 64 - i,
    {
        let p = pieces[i];
        if p.piece_type == PieceType::King && p.color == color {
            if first.is_some() {
                let ghost f = first->0 as int;
                assert(is_king_of(pieces@[f], color) && is_king_of(pieces@[i as int], color));
                return false;
            }
            first = Some(i);
        }
        i = i + 1;
    }
    first.is_some()
}

} // verus!
