use bitboard_chess::pieces::{Colour, Piece};
use bitboard_chess::position::{get_starting_position, Position, RANK_2, RANK_7};

fn sq(i: u32) -> u64 {
    1u64 << i
}

#[test]
fn starting_position_places_both_armies() {
    let p = get_starting_position();
    assert_eq!(p.white_pawn, RANK_2);
    assert_eq!(p.black_pawn, RANK_7);
    assert_eq!(p.white_rook, sq(0) | sq(7));
    assert_eq!(p.white_knight, sq(1) | sq(6));
    assert_eq!(p.white_bishop, sq(2) | sq(5));
    assert_eq!(p.white_queen, sq(3));
    assert_eq!(p.white_king, sq(4));
    assert_eq!(p.black_rook, sq(56) | sq(63));
    assert_eq!(p.black_queen, sq(59));
    assert_eq!(p.black_king, sq(60));
    assert_eq!(p.turn, Colour::White);
    assert_eq!(p.last_moved_squares, 0);
    assert_eq!(p.en_passant_square, 0);
}

#[test]
fn occupancy_of_the_starting_position() {
    let p = get_starting_position();
    assert_eq!(p.get_occupancy(), 0xffff_0000_0000_ffff);
    assert_eq!(p.get_colour_occupancy(&Colour::White), 0xffff);
    assert_eq!(p.get_colour_occupancy(&Colour::Black), 0xffff_0000_0000_0000);
}

#[test]
fn bitboard_accessors_select_by_piece() {
    let mut p = get_starting_position();
    assert_eq!(p.get_bitboard(&Piece::BlackKnight), sq(57) | sq(62));
    *p.get_bitboard_mut(&Piece::BlackKnight) = sq(40);
    assert_eq!(p.black_knight, sq(40));
    assert_eq!(p.white_knight, sq(1) | sq(6));
}

#[test]
fn piece_lookup_finds_pieces_and_empty_squares() {
    let p = get_starting_position();
    assert_eq!(p.get_piece_at(&sq(4)), Some(Piece::WhiteKing));
    assert_eq!(p.get_piece_at(&sq(59)), Some(Piece::BlackQueen));
    assert_eq!(p.get_piece_at(&sq(28)), None);
    assert_eq!(p.get_piece_with_colour_at(&sq(4), &Colour::White), Some(Piece::WhiteKing));
    assert_eq!(p.get_piece_with_colour_at(&sq(4), &Colour::Black), None);
    assert_eq!(p.get_piece_with_colour_at(&sq(52), &Colour::Black), Some(Piece::BlackPawn));
    assert_eq!(p.get_piece_with_colour_at(&sq(28), &Colour::White), None);
}

#[test]
fn insert_piece_adds_to_its_bitboard() {
    let mut p = get_starting_position();
    p.insert_piece_at_square(&Piece::WhitePawn, &sq(31));
    assert_eq!(p.white_pawn, RANK_2 | sq(31));
    assert_eq!(p.get_piece_at(&sq(31)), Some(Piece::WhitePawn));
}

#[test]
fn move_piece_moves_and_passes_the_turn() {
    let mut p = get_starting_position();
    p.move_piece(&sq(12), &sq(28));
    assert_eq!(p.white_pawn, (RANK_2 & !sq(12)) | sq(28));
    assert_eq!(p.last_moved_squares, sq(12) | sq(28));
    assert_eq!(p.turn, Colour::Black);
    p.move_piece(&sq(51), &sq(35));
    assert_eq!(p.turn, Colour::White);
}

#[test]
fn move_piece_captures_an_opposing_piece() {
    let mut p = get_starting_position();
    p.insert_piece_at_square(&Piece::BlackPawn, &sq(35));
    p.black_pawn &= !sq(51);
    p.insert_piece_at_square(&Piece::WhitePawn, &sq(28));
    p.white_pawn &= !sq(12);
    p.move_piece(&sq(28), &sq(35));
    assert_eq!(p.black_pawn & sq(35), 0);
    assert_ne!(p.white_pawn & sq(35), 0);
    assert_eq!(p.white_pawn & sq(28), 0);
    assert_eq!(p.turn, Colour::Black);
    assert_eq!(p.get_piece_at(&sq(35)), Some(Piece::WhitePawn));
}

#[test]
fn move_piece_from_an_empty_square_only_clears_and_passes() {
    let mut p = get_starting_position();
    let before = p;
    p.move_piece(&sq(28), &sq(52));
    assert_eq!(p.black_pawn, before.black_pawn & !sq(52));
    assert_eq!(p.get_occupancy(), before.get_occupancy() & !sq(52));
    assert_eq!(p.turn, Colour::Black);
}

#[test]
fn pawn_attacks_of_each_side_in_the_starting_position() {
    let p = get_starting_position();
    assert_eq!(p.get_attacks_of_colour(&Colour::White), 0x0000_0000_00ff_0000);
    assert_eq!(p.get_attacks_of_colour(&Colour::Black), 0x0000_ff00_0000_0000);
}

#[test]
fn positions_can_be_built_field_by_field() {
    let p = Position {
        white_pawn: 0,
        white_knight: 0,
        white_bishop: 0,
        white_rook: 0,
        white_queen: 0,
        white_king: sq(4),
        black_pawn: 0,
        black_knight: 0,
        black_bishop: 0,
        black_rook: 0,
        black_queen: 0,
        black_king: sq(60),
        turn: Colour::White,
        last_moved_squares: 0,
        en_passant_square: 0,
    };
    assert_eq!(p.get_occupancy(), sq(4) | sq(60));
}
