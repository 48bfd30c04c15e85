use bitboard_chess::pieces::{Class, Colour, Piece};

#[test]
fn iter_lists_twelve_pieces_white_first() {
    let all = Piece::iter();
    assert_eq!(all.len(), 12);
    assert_eq!(all[0], Piece::WhitePawn);
    assert_eq!(all[5], Piece::WhiteKing);
    assert_eq!(all[6], Piece::BlackPawn);
    assert_eq!(all[11], Piece::BlackKing);
    for (k, p) in all.iter().enumerate() {
        assert_eq!(p.colour() == Colour::White, k < 6);
    }
}

#[test]
fn glyphs_are_upper_case_for_white_and_lower_case_for_black() {
    assert_eq!(Piece::WhitePawn.str(), "P");
    assert_eq!(Piece::WhiteKnight.str(), "N");
    assert_eq!(Piece::WhiteBishop.str(), "B");
    assert_eq!(Piece::WhiteRook.str(), "R");
    assert_eq!(Piece::WhiteQueen.str(), "Q");
    assert_eq!(Piece::WhiteKing.str(), "K");
    assert_eq!(Piece::BlackPawn.str(), "p");
    assert_eq!(Piece::BlackKnight.str(), "n");
    assert_eq!(Piece::BlackBishop.str(), "b");
    assert_eq!(Piece::BlackRook.str(), "r");
    assert_eq!(Piece::BlackQueen.str(), "q");
    assert_eq!(Piece::BlackKing.str(), "k");
}

#[test]
fn class_and_colour_of_each_piece() {
    assert_eq!(Piece::WhitePawn.class(), Class::Pawn);
    assert_eq!(Piece::BlackKnight.class(), Class::Knight);
    assert_eq!(Piece::WhiteBishop.class(), Class::Bishop);
    assert_eq!(Piece::BlackRook.class(), Class::Rook);
    assert_eq!(Piece::WhiteQueen.class(), Class::Queen);
    assert_eq!(Piece::BlackKing.class(), Class::King);
    assert_eq!(Piece::WhiteKing.colour(), Colour::White);
    assert_eq!(Piece::BlackPawn.colour(), Colour::Black);
}

#[test]
fn opposite_colour_swaps_sides() {
    assert_eq!(Colour::White.opposite(), Colour::Black);
    assert_eq!(Colour::Black.opposite(), Colour::White);
}
