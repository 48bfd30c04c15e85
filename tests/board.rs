use bitboard_chess::board::fill_board;
use bitboard_chess::pieces::Piece;

#[test]
fn fill_board_writes_glyphs_on_set_squares() {
    let mut board = [" "; 64];
    fill_board(&mut board, &((1u64 << 0) | (1u64 << 7)), &Piece::WhiteRook);
    fill_board(&mut board, &(1u64 << 60), &Piece::BlackKing);
    assert_eq!(board[0], "R");
    assert_eq!(board[7], "R");
    assert_eq!(board[60], "k");
    assert_eq!(board.iter().filter(|c| **c != " ").count(), 3);
}

#[test]
fn fill_board_with_empty_bitboard_changes_nothing() {
    let mut board = ["x"; 64];
    fill_board(&mut board, &0, &Piece::WhitePawn);
    assert!(board.iter().all(|c| *c == "x"));
}
