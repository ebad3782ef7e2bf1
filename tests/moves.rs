use chess::board::Board;
use chess::{starting_pieces, Color, Piece, PieceType, Position};

fn pos(x: u8, y: u8) -> Position {
    Position::new(x, y)
}

fn squares(board: &Board) -> Vec<Piece> {
    let mut all = Vec::new();
    for y in 0..8u8 {
        for x in 0..8u8 {
            all.push(board.piece_at(pos(x, y)));
        }
    }
    all
}

fn count_pieces(board: &Board) -> usize {
    squares(board)
        .iter()
        .filter(|p| p.piece_type != PieceType::Empty)
        .count()
}

fn play(board: &mut Board, moves: &[(u8, u8, u8, u8)]) -> Vec<Option<String>> {
    moves
        .iter()
        .map(|&(a, b, c, d)| board.move_piece(pos(a, b), pos(c, d)))
        .collect()
}

fn assert_refused_and_unchanged(board: &mut Board, from: Position, to: Position) {
    let before = squares(board);
    let turn = board.current_turn();
    let last = board.last_moved();
    assert_eq!(board.move_piece(from, to), None);
    assert_eq!(squares(board), before);
    assert_eq!(board.current_turn(), turn);
    assert_eq!(board.last_moved(), last);
}

fn empty_board() -> [Piece; 64] {
    let mut pieces = [Piece::new(PieceType::Empty, pos(0, 0), Color::White); 64];
    for y in 0..8u8 {
        for x in 0..8u8 {
            pieces[(8 * y + x) as usize] = Piece::new(PieceType::Empty, pos(x, y), Color::White);
        }
    }
    pieces
}

fn place(pieces: &mut [Piece; 64], kind: PieceType, x: u8, y: u8, color: Color) {
    pieces[(8 * y + x) as usize] = Piece::new(kind, pos(x, y), color);
}

#[test]
fn white_pawn_double_step_from_start() {
    let mut board = Board::default();
    assert_eq!(board.current_turn(), Color::White);
    assert_eq!(board.move_piece(pos(4, 6), pos(4, 4)), Some("e4".to_string()));
    assert_eq!(board.current_turn(), Color::Black);
    let pawn = board.piece_at(pos(4, 4));
    assert_eq!(pawn.piece_type, PieceType::Pawn);
    assert_eq!(pawn.color, Color::White);
    assert!(pawn.has_moved);
    assert_eq!(board.piece_at(pos(4, 6)).piece_type, PieceType::Empty);
    assert_eq!(board.last_moved(), pawn);
}

#[test]
fn move_from_empty_square_is_refused() {
    let mut board = Board::default();
    assert_refused_and_unchanged(&mut board, pos(4, 4), pos(4, 3));
}

#[test]
fn move_out_of_turn_is_refused() {
    let mut board = Board::default();
    assert_refused_and_unchanged(&mut board, pos(4, 1), pos(4, 3));
    board.move_piece(pos(4, 6), pos(4, 4)).unwrap();
    assert_refused_and_unchanged(&mut board, pos(3, 6), pos(3, 4));
}

#[test]
fn move_onto_same_square_is_refused() {
    let mut board = Board::default();
    assert_refused_and_unchanged(&mut board, pos(1, 7), pos(1, 7));
}

#[test]
fn illegal_moves_leave_board_unchanged() {
    let mut board = Board::default();
    // a rook blocked by its own pawn
    assert_refused_and_unchanged(&mut board, pos(0, 7), pos(0, 4));
    // a bishop blocked by its own pawn
    assert_refused_and_unchanged(&mut board, pos(2, 7), pos(5, 4));
    // a pawn three squares forward
    assert_refused_and_unchanged(&mut board, pos(4, 6), pos(4, 3));
    // capturing an own piece
    assert_refused_and_unchanged(&mut board, pos(3, 7), pos(3, 6));
    // a pawn moving backwards after it moved
    board.move_piece(pos(4, 6), pos(4, 4)).unwrap();
    board.move_piece(pos(0, 1), pos(0, 2)).unwrap();
    assert_refused_and_unchanged(&mut board, pos(4, 4), pos(4, 5));
    // a pawn double step after it moved
    assert_refused_and_unchanged(&mut board, pos(4, 4), pos(4, 2));
}

#[test]
fn knight_moves_and_notation() {
    let mut board = Board::default();
    assert_eq!(board.move_piece(pos(6, 7), pos(5, 5)), Some("Nf3".to_string()));
    assert_eq!(board.move_piece(pos(1, 0), pos(2, 2)), Some("Nc6".to_string()));
    assert_refused_and_unchanged(&mut board, pos(5, 5), pos(5, 3));
}

#[test]
fn pawn_capture_notation_uses_origin_file() {
    let mut board = Board::default();
    let played = play(&mut board, &[(4, 6, 4, 4), (3, 1, 3, 3), (4, 4, 3, 3)]);
    assert_eq!(played[2], Some("exd5".to_string()));
    assert_eq!(count_pieces(&board), 31);
}

#[test]
fn piece_capture_notation() {
    let mut board = Board::default();
    let played = play(
        &mut board,
        &[(4, 6, 4, 4), (3, 1, 3, 3), (4, 4, 3, 3), (3, 0, 3, 3)],
    );
    assert_eq!(played[3], Some("Qxd5".to_string()));
}

#[test]
fn en_passant_capture() {
    let mut board = Board::default();
    let played = play(&mut board, &[(4, 6, 4, 4), (0, 1, 0, 2), (4, 4, 4, 3), (3, 1, 3, 3)]);
    assert!(played.iter().all(|m| m.is_some()));
    let before = count_pieces(&board);
    let notation = board.move_piece(pos(4, 3), pos(3, 2)).unwrap();
    assert_eq!(notation, "exd6 e.p.");
    assert!(notation.ends_with(" e.p."));
    assert_eq!(count_pieces(&board), before - 1);
    assert_eq!(board.piece_at(pos(3, 3)).piece_type, PieceType::Empty);
    assert_eq!(board.piece_at(pos(3, 2)).piece_type, PieceType::Pawn);
    assert_eq!(board.piece_at(pos(3, 2)).color, Color::White);
    assert_eq!(board.current_turn(), Color::Black);
}

#[test]
fn en_passant_only_right_after_the_double_step() {
    let mut board = Board::default();
    let played = play(
        &mut board,
        &[(4, 6, 4, 4), (0, 1, 0, 2), (4, 4, 4, 3), (3, 1, 3, 3), (7, 6, 7, 5), (0, 2, 0, 3)],
    );
    assert!(played.iter().all(|m| m.is_some()));
    assert_refused_and_unchanged(&mut board, pos(4, 3), pos(3, 2));
}

#[test]
fn en_passant_refused_after_two_single_steps() {
    let mut board = Board::default();
    let played = play(&mut board, &[(4, 6, 4, 4), (3, 1, 3, 2), (4, 4, 4, 3), (3, 2, 3, 3)]);
    assert!(played.iter().all(|m| m.is_some()));
    assert_eq!(board.last_moved().piece_type, PieceType::Pawn);
    assert_eq!(board.last_moved().position, pos(3, 3));
    assert_refused_and_unchanged(&mut board, pos(4, 3), pos(3, 2));
}

#[test]
fn black_en_passant_capture() {
    let mut board = Board::default();
    let played = play(&mut board, &[(7, 6, 7, 5), (3, 1, 3, 3), (7, 5, 7, 4), (3, 3, 3, 4), (4, 6, 4, 4)]);
    assert!(played.iter().all(|m| m.is_some()));
    assert_eq!(board.move_piece(pos(3, 4), pos(4, 5)), Some("dxe3 e.p.".to_string()));
    assert_eq!(board.piece_at(pos(4, 4)).piece_type, PieceType::Empty);
}

fn ready_to_castle_short() -> Board {
    let mut board = Board::default();
    let played = play(
        &mut board,
        &[(6, 7, 5, 5), (0, 1, 0, 2), (4, 6, 4, 4), (0, 2, 0, 3), (5, 7, 2, 4), (0, 3, 0, 4)],
    );
    assert!(played.iter().all(|m| m.is_some()));
    board
}

#[test]
fn short_castle() {
    let mut board = ready_to_castle_short();
    assert_eq!(board.move_piece(pos(4, 7), pos(6, 7)), Some("O-O".to_string()));
    let king = board.piece_at(pos(6, 7));
    let rook = board.piece_at(pos(5, 7));
    assert_eq!(king.piece_type, PieceType::King);
    assert!(king.has_moved);
    assert_eq!(rook.piece_type, PieceType::Rook);
    assert!(rook.has_moved);
    assert_eq!(board.piece_at(pos(4, 7)).piece_type, PieceType::Empty);
    assert_eq!(board.piece_at(pos(7, 7)).piece_type, PieceType::Empty);
    assert_eq!(board.current_turn(), Color::Black);
    assert_eq!(board.last_moved(), rook);
}

#[test]
fn short_castle_refused_after_king_moved() {
    let mut board = ready_to_castle_short();
    let played = play(&mut board, &[(4, 7, 5, 7), (0, 4, 0, 5), (5, 7, 4, 7), (1, 1, 1, 2)]);
    assert!(played.iter().all(|m| m.is_some()));
    assert_refused_and_unchanged(&mut board, pos(4, 7), pos(6, 7));
}

#[test]
fn short_castle_refused_after_rook_moved() {
    let mut board = ready_to_castle_short();
    let played = play(&mut board, &[(7, 7, 6, 7), (0, 4, 0, 5), (6, 7, 7, 7), (1, 1, 1, 2)]);
    assert!(played.iter().all(|m| m.is_some()));
    assert_refused_and_unchanged(&mut board, pos(4, 7), pos(6, 7));
}

#[test]
fn short_castle_refused_through_attacked_square() {
    let mut pieces = empty_board();
    place(&mut pieces, PieceType::King, 4, 7, Color::White);
    place(&mut pieces, PieceType::Rook, 7, 7, Color::White);
    place(&mut pieces, PieceType::King, 0, 0, Color::Black);
    place(&mut pieces, PieceType::Rook, 5, 0, Color::Black);
    let mut board = Board::from_pieces(pieces, Color::White).unwrap();
    assert_refused_and_unchanged(&mut board, pos(4, 7), pos(6, 7));
}

#[test]
fn short_castle_refused_onto_attacked_square() {
    let mut pieces = empty_board();
    place(&mut pieces, PieceType::King, 4, 7, Color::White);
    place(&mut pieces, PieceType::Rook, 7, 7, Color::White);
    place(&mut pieces, PieceType::King, 0, 0, Color::Black);
    place(&mut pieces, PieceType::Rook, 6, 0, Color::Black);
    let mut board = Board::from_pieces(pieces, Color::White).unwrap();
    assert_refused_and_unchanged(&mut board, pos(4, 7), pos(6, 7));
}

#[test]
fn short_castle_refused_out_of_check() {
    let mut pieces = empty_board();
    place(&mut pieces, PieceType::King, 4, 7, Color::White);
    place(&mut pieces, PieceType::Rook, 7, 7, Color::White);
    place(&mut pieces, PieceType::King, 0, 0, Color::Black);
    place(&mut pieces, PieceType::Rook, 4, 0, Color::Black);
    let mut board = Board::from_pieces(pieces, Color::White).unwrap();
    assert!(board.in_check(Color::White));
    assert_refused_and_unchanged(&mut board, pos(4, 7), pos(6, 7));
}

#[test]
fn short_castle_refused_with_piece_in_between() {
    let mut board = Board::default();
    let played = play(&mut board, &[(6, 7, 5, 5), (0, 1, 0, 2)]);
    assert!(played.iter().all(|m| m.is_some()));
    assert_refused_and_unchanged(&mut board, pos(4, 7), pos(6, 7));
}

#[test]
fn long_castle() {
    let mut pieces = empty_board();
    place(&mut pieces, PieceType::King, 4, 0, Color::Black);
    place(&mut pieces, PieceType::Rook, 0, 0, Color::Black);
    place(&mut pieces, PieceType::King, 7, 7, Color::White);
    let mut board = Board::from_pieces(pieces, Color::Black).unwrap();
    assert_eq!(board.move_piece(pos(4, 0), pos(1, 0)), Some("O-O-O".to_string()));
    assert_eq!(board.piece_at(pos(1, 0)).piece_type, PieceType::King);
    assert_eq!(board.piece_at(pos(2, 0)).piece_type, PieceType::Rook);
    assert_eq!(board.piece_at(pos(0, 0)).piece_type, PieceType::Empty);
    assert_eq!(board.piece_at(pos(4, 0)).piece_type, PieceType::Empty);
    assert_eq!(board.current_turn(), Color::White);
}

#[test]
fn long_castle_refused_through_attacked_square() {
    let mut pieces = empty_board();
    place(&mut pieces, PieceType::King, 4, 0, Color::Black);
    place(&mut pieces, PieceType::Rook, 0, 0, Color::Black);
    place(&mut pieces, PieceType::King, 7, 7, Color::White);
    place(&mut pieces, PieceType::Rook, 2, 7, Color::White);
    let mut board = Board::from_pieces(pieces, Color::Black).unwrap();
    assert_refused_and_unchanged(&mut board, pos(4, 0), pos(1, 0));
}

#[test]
fn moving_into_check_is_refused() {
    let mut pieces = empty_board();
    place(&mut pieces, PieceType::King, 4, 7, Color::White);
    place(&mut pieces, PieceType::Rook, 4, 6, Color::White);
    place(&mut pieces, PieceType::King, 0, 0, Color::Black);
    place(&mut pieces, PieceType::Rook, 4, 0, Color::Black);
    let mut board = Board::from_pieces(pieces, Color::White).unwrap();
    // the pinned rook may not leave the file
    assert_refused_and_unchanged(&mut board, pos(4, 6), pos(0, 6));
    // but may move along it
    assert_eq!(board.move_piece(pos(4, 6), pos(4, 1)), Some("Re7".to_string()));
}

fn one_escape_position(with_defender: bool) -> Board {
    let mut pieces = empty_board();
    place(&mut pieces, PieceType::King, 7, 7, Color::White);
    place(&mut pieces, PieceType::Pawn, 6, 6, Color::White);
    place(&mut pieces, PieceType::Pawn, 7, 6, Color::White);
    place(&mut pieces, PieceType::King, 7, 0, Color::Black);
    place(&mut pieces, PieceType::Rook, 0, 7, Color::Black);
    if with_defender {
        place(&mut pieces, PieceType::Rook, 0, 5, Color::White);
    }
    Board::from_pieces(pieces, Color::White).unwrap()
}

#[test]
fn single_escape_from_check_is_not_mate() {
    let mut board = one_escape_position(true);
    assert!(board.in_check(Color::White));
    assert!(!board.is_checkmate(Color::White));
    assert_eq!(board.move_piece(pos(0, 5), pos(0, 7)), Some("Rxa1".to_string()));
    assert!(!board.in_check(Color::White));
}

#[test]
fn no_escape_from_check_is_mate() {
    let mut board = one_escape_position(false);
    assert!(board.in_check(Color::White));
    assert!(board.is_checkmate(Color::White));
}

#[test]
fn checkmate_leaves_board_unchanged() {
    let mut board = one_escape_position(true);
    let before = squares(&board);
    let last = board.last_moved();
    board.is_checkmate(Color::White);
    assert_eq!(squares(&board), before);
    assert_eq!(board.last_moved(), last);
    assert_eq!(board.current_turn(), Color::White);
}

#[test]
fn fools_mate_is_marked_with_hash() {
    let mut board = Board::default();
    let played = play(&mut board, &[(5, 6, 5, 5), (4, 1, 4, 3), (6, 6, 6, 4), (3, 0, 7, 4)]);
    assert_eq!(played[0], Some("f3".to_string()));
    assert_eq!(played[3], Some("Qh4#".to_string()));
    assert!(board.in_check(Color::White));
    assert!(board.is_checkmate(Color::White));
}

#[test]
fn check_without_mate_is_marked_with_plus() {
    let mut board = Board::default();
    let played = play(&mut board, &[(4, 6, 4, 4), (5, 1, 5, 2), (3, 7, 7, 3)]);
    assert_eq!(played[0], Some("e4".to_string()));
    assert_eq!(played[2], Some("Qh5+".to_string()));
    assert!(board.in_check(Color::Black));
    assert!(!board.is_checkmate(Color::Black));
    // a reply that leaves the check standing is refused
    assert_refused_and_unchanged(&mut board, pos(0, 1), pos(0, 2));
    assert_eq!(board.move_piece(pos(6, 1), pos(6, 2)), Some("g6".to_string()));
}

#[test]
fn quiet_move_has_no_suffix() {
    let mut board = Board::default();
    let text = board.move_piece(pos(3, 6), pos(3, 5)).unwrap();
    assert_eq!(text, "d3");
    assert!(!text.ends_with('+') && !text.ends_with('#'));
}

#[test]
fn starting_layout() {
    let pieces = starting_pieces();
    assert_eq!(pieces[4].piece_type, PieceType::King);
    assert_eq!(pieces[4].color, Color::Black);
    assert_eq!(pieces[3].piece_type, PieceType::Queen);
    assert_eq!(pieces[60].piece_type, PieceType::King);
    assert_eq!(pieces[60].color, Color::White);
    assert_eq!(pieces[63].piece_type, PieceType::Rook);
    assert_eq!(pieces[57].piece_type, PieceType::Knight);
    assert_eq!(pieces[58].piece_type, PieceType::Bishop);
    for x in 0..8usize {
        assert_eq!(pieces[8 + x].piece_type, PieceType::Pawn);
        assert_eq!(pieces[48 + x].piece_type, PieceType::Pawn);
        assert_eq!(pieces[48 + x].color, Color::White);
    }
    for i in 16..48usize {
        assert_eq!(pieces[i].piece_type, PieceType::Empty);
    }
    for (i, p) in pieces.iter().enumerate() {
        assert_eq!(p.position, pos((i % 8) as u8, (i / 8) as u8));
        assert!(!p.has_moved);
    }
}

#[test]
fn color_flips() {
    assert_eq!(Color::White.flip(), Color::Black);
    assert_eq!(Color::Black.flip(), Color::White);
    assert_eq!(!Color::White, Color::Black);
    assert_eq!(!Color::Black, Color::White);
}

#[test]
fn piece_and_position_constructors() {
    let p = Piece::new(PieceType::Rook, Position::new(2, 5), Color::Black);
    assert_eq!(p.position.x, 2);
    assert_eq!(p.position.y, 5);
    assert_eq!(p.piece_type, PieceType::Rook);
    assert_eq!(p.color, Color::Black);
    assert!(!p.has_moved);
}

#[test]
fn positions_must_be_consistent() {
    let mut pieces = empty_board();
    place(&mut pieces, PieceType::King, 4, 7, Color::White);
    place(&mut pieces, PieceType::King, 4, 0, Color::Black);
    assert!(Board::from_pieces(pieces, Color::White).is_some());
    pieces[10] = Piece::new(PieceType::Empty, pos(3, 3), Color::White);
    assert!(Board::from_pieces(pieces, Color::White).is_none());
}

#[test]
fn each_side_needs_exactly_one_king() {
    let mut pieces = empty_board();
    place(&mut pieces, PieceType::King, 4, 7, Color::White);
    assert!(Board::from_pieces(pieces, Color::White).is_none());
    place(&mut pieces, PieceType::King, 4, 0, Color::Black);
    place(&mut pieces, PieceType::King, 0, 0, Color::Black);
    assert!(Board::from_pieces(pieces, Color::White).is_none());
}

#[test]
fn side_not_to_move_may_not_stand_in_check() {
    let mut pieces = empty_board();
    place(&mut pieces, PieceType::King, 4, 7, Color::White);
    place(&mut pieces, PieceType::King, 4, 0, Color::Black);
    place(&mut pieces, PieceType::Rook, 4, 4, Color::White);
    assert!(Board::from_pieces(pieces, Color::White).is_none());
    assert!(Board::from_pieces(pieces, Color::Black).is_some());
}
