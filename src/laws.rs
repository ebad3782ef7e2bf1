//! Laws of the engine, stated over the model of a board and proved from it.
use crate::piece::{Color, Piece, PieceType, Position};
use crate::rules::{has_escape, in_check, lemma_count_update, occupied_count};
use crate::state::{
    castle_walk, check_suffix, corner_file, file_letter, move_text, passed_square, rank_digit,
    square, walk_file, BoardState, MoveValidity,
};
use vstd::prelude::*;

verus! {

/// The square `p` holds the king of the side to move.
pub open spec fn is_king_of_side(st: BoardState, p: Position) -> bool {
    st.squares[p.idx()].piece_type == PieceType::King && st.squares[p.idx()].color == st.turn
}

/// A move from an empty square, with a piece of the side not to move, or
/// onto the square it starts from is refused (and `Board::move_piece` then
/// leaves the board as it was).
pub proof fn lemma_refused_before_rules(st: BoardState, from: Position, to: Position)
    requires
        from.valid(),
        to.valid(),
        st.squares[from.idx()].is_empty() || st.squares[from.idx()].color != st.turn || from
            == to,
    ensures
        !st.accepts(from, to),
{
}

/// A castle of the side to move is refused when its king or the castling rook
/// has moved, or when the king would stand in check on any square of its walk,
/// the landing square included.
pub proof fn lemma_castle_refusals(st: BoardState, short: bool, n: nat)
    requires
        st.valid(),
        is_king_of_side(st, square(4, st.turn.home_rank() as int)),
    ensures
        ({
            let r = st.turn.home_rank() as int;
            let from = square(4, r);
            let to = square(walk_file(short, if short { 2 } else { 3 }), r);
            let rook = st.squares[8 * r + corner_file(short)];
            &&& st.squares[from.idx()].has_moved ==> !st.accepts(from, to)
            &&& rook.has_moved ==> !st.accepts(from, to)
            &&& rook.piece_type != PieceType::Rook ==> !st.accepts(from, to)
            &&& (1 <= n <= (if short { 2int } else { 3int }) && in_check(
                castle_walk(st.squares, r, short, n),
                st.turn,
            )) ==> !st.accepts(from, to)
        }),
{
}

/// The notation of an accepted move that is not a castle ends in `#` when it
/// mates, in `+` when it checks without mating, and in neither otherwise.
pub proof fn lemma_notation_suffix(st: BoardState, from: Position, to: Position)
    requires
        st.valid(),
        from.valid(),
        to.valid(),
        st.accepts(from, to),
        st.classify(from, to) == MoveValidity::Valid || st.classify(from, to)
            == MoveValidity::EnPassant,
    ensures
        ({
            let next = st.after(from, to);
            let text = st.notation(from, to);
            &&& text.len() > 0
            &&& in_check(next.squares, next.turn) && !has_escape(next.squares, next.turn)
                ==> text.last() == '#'
            &&& in_check(next.squares, next.turn) && has_escape(next.squares, next.turn)
                ==> text.last() == '+'
            &&& !in_check(next.squares, next.turn) ==> text.last() != '+' && text.last() != '#'
        }),
{
    let m = st.squares[from.idx()];
    let t = st.squares[to.idx()];
    let next = st.after(from, to);
    let suffix = check_suffix(next.squares, next.turn);
    let ep = st.classify(from, to) == MoveValidity::EnPassant;
    let captured = ep || !t.is_empty();
    let text = move_text(m, t, captured, ep, suffix);
    assert(st.notation(from, to) == text);
    let body = move_text(m, t, captured, ep, seq![]);
    assert(text =~= body + suffix);
    assert(body.len() > 0);
    if !in_check(next.squares, next.turn) {
        assert(suffix == Seq::<char>::empty());
        assert(text =~= body);
        if ep {
            assert(body.last() == '.');
        } else {
            let rank = st.squares[to.idx()].position.y as int;
            assert(body.last() == crate::state::rank_digit(rank));
        }
    }
}

/// An accepted en passant capture follows a pawn's double step, empties the
/// square of the captured pawn, leaves one piece fewer on the board, and is
/// written as a pawn capture followed by ` e.p.` and any check mark.
pub proof fn lemma_en_passant_effects(st: BoardState, from: Position, to: Position)
    requires
        st.valid(),
        from.valid(),
        to.valid(),
        st.accepts(from, to),
        st.classify(from, to) == MoveValidity::EnPassant,
    ensures
        ({
            let m = st.squares[from.idx()];
            let t = st.squares[to.idx()];
            let next = st.after(from, to);
            let text = st.notation(from, to);
            let suffix = check_suffix(next.squares, next.turn);
            &&& next.squares[passed_square(m, t).idx()].is_empty()
            &&& !st.squares[passed_square(m, t).idx()].is_empty()
            &&& occupied_count(next.squares) == occupied_count(st.squares) - 1
            &&& st.double_step
            &&& text.subrange(text.len() - suffix.len() - 5, text.len() - suffix.len())
                == seq![' ', 'e', '.', 'p', '.']
            &&& text == seq![
                file_letter(from.x as int),
                'x',
                file_letter(to.x as int),
                rank_digit(to.y as int),
                ' ',
                'e',
                '.',
                'p',
                '.',
            ] + suffix
        }),
{
    let m = st.squares[from.idx()];
    let t = st.squares[to.idx()];
    let next = st.after(from, to);
    let suffix = check_suffix(next.squares, next.turn);
    let body = move_text(m, t, true, false, seq![]);
    let text = st.notation(from, to);
    let p = passed_square(m, t);
    let cleared = st.squares.update(p.idx(), Piece::fresh(PieceType::Empty, p, Color::Black));
    let arrived = cleared.update(
        to.idx(),
        Piece { piece_type: m.piece_type, position: to, color: m.color, has_moved: true },
    );
    lemma_count_update(st.squares, p.idx(), Piece::fresh(PieceType::Empty, p, Color::Black));
    lemma_count_update(
        cleared,
        to.idx(),
        Piece { piece_type: m.piece_type, position: to, color: m.color, has_moved: true },
    );
    lemma_count_update(arrived, from.idx(), Piece::fresh(PieceType::Empty, from, Color::White));
    assert(text =~= body + seq![' ', 'e', '.', 'p', '.'] + suffix);
    assert(text.subrange(text.len() - suffix.len() - 5, text.len() - suffix.len()) =~= seq![
        ' ',
        'e',
        '.',
        'p',
        '.',
    ]);
    assert(m.position == from && t.position == to);
    assert(text =~= seq![
        file_letter(from.x as int),
        'x',
        file_letter(to.x as int),
        rank_digit(to.y as int),
        ' ',
        'e',
        '.',
        'p',
        '.',
    ] + suffix);
}

} // verus!
