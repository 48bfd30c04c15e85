use vstd::prelude::*;

verus! {

/// The six kinds of chess piece.
#[derive(Clone, Copy, Debug, PartialEq, Eq, Structural)]
pub enum Class {
    Pawn,
    Knight,
    Bishop,
    Rook,
    Queen,
    King,
}

/// The two sides.
#[derive(Clone, Copy, Debug, PartialEq, Eq, Structural)]
pub enum Colour {
    White,
    Black,
}

impl Colour {
    pub open spec fn spec_opposite(self) -> Colour {
        match self {
            Colour::White => Colour::Black,
            Colour::Black => Colour::White,
        }
    }

    /// The other side.
    pub fn opposite(&self) -> (r: Colour)
        ensures
            r == self.spec_opposite(),
    {
        match self {
            Colour::White => Colour::Black,
            Colour::Black => Colour::White,
        }
    }
}

/// One of the twelve pieces: a class together with a colour.
#[derive(Clone, Copy, Debug, PartialEq, Eq, Structural)]
pub enum Piece {
    WhitePawn,
    WhiteKnight,
    WhiteBishop,
    WhiteRook,
    WhiteQueen,
    WhiteKing,
    BlackPawn,
    BlackKnight,
    BlackBishop,
    BlackRook,
    BlackQueen,
    BlackKing,
}

/// The twelve pieces in their fixed order: the white ones from pawn to king,
/// then the black ones in the same order.
pub open spec fn all_pieces() -> Seq<Piece> {
    seq![
        Piece::WhitePawn,
        Piece::WhiteKnight,
        Piece::WhiteBishop,
        Piece::WhiteRook,
        Piece::WhiteQueen,
        Piece::WhiteKing,
        Piece::BlackPawn,
        Piece::BlackKnight,
        Piece::BlackBishop,
        Piece::BlackRook,
        Piece::BlackQueen,
        Piece::BlackKing,
    ]
}

/// The display glyph of a piece: its letter, upper case for white and lower
/// case for black.
pub open spec fn glyph(p: Piece) -> char {
    match p {
        Piece::WhitePawn => 'P',
        Piece::WhiteKnight => 'N',
        Piece::WhiteBishop => 'B',
        Piece::WhiteRook => 'R',
        Piece::WhiteQueen => 'Q',
        Piece::WhiteKing => 'K',
        Piece::BlackPawn => 'p',
        Piece::BlackKnight => 'n',
        Piece::BlackBishop => 'b',
        Piece::BlackRook => 'r',
        Piece::BlackQueen => 'q',
        Piece::BlackKing => 'k',
    }
}

/// The first six pieces of `all_pieces` are the white ones.
pub proof fn lemma_all_pieces_colour()
    ensures
        forall|k: int|
            0 <= k < 12 ==> (#[trigger] all_pieces()[k].spec_colour() == Colour::White <==> k < 6),
{
    assert forall|k: int| 0 <= k < 12 implies (#[trigger] all_pieces()[k].spec_colour()
        == Colour::White <==> k < 6) by {
        assert(all_pieces()[0] == Piece::WhitePawn);
        assert(all_pieces()[1] == Piece::WhiteKnight);
        assert(all_pieces()[2] == Piece::WhiteBishop);
        assert(all_pieces()[3] == Piece::WhiteRook);
        assert(all_pieces()[4] == Piece::WhiteQueen);
        assert(all_pieces()[5] == Piece::WhiteKing);
        assert(all_pieces()[6] == Piece::BlackPawn);
        assert(all_pieces()[7] == Piece::BlackKnight);
        assert(all_pieces()[8] == Piece::BlackBishop);
        assert(all_pieces()[9] == Piece::BlackRook);
        assert(all_pieces()[10] == Piece::BlackQueen);
        assert(all_pieces()[11] == Piece::BlackKing);
    }
}

impl Piece {
    pub open spec fn spec_class(self) -> Class {
        match self {
            Piece::WhitePawn | Piece::BlackPawn => Class::Pawn,
            Piece::WhiteKnight | Piece::BlackKnight => Class::Knight,
            Piece::WhiteBishop | Piece::BlackBishop => Class::Bishop,
            Piece::WhiteRook | Piece::BlackRook => Class::Rook,
            Piece::WhiteQueen | Piece::BlackQueen => Class::Queen,
            Piece::WhiteKing | Piece::BlackKing => Class::King,
        }
    }

    pub open spec fn spec_colour(self) -> Colour {
        match self {
            Piece::WhitePawn | Piece::WhiteKnight | Piece::WhiteBishop | Piece::WhiteRook
            | Piece::WhiteQueen | Piece::WhiteKing => Colour::White,
            _ => Colour::Black,
        }
    }

    /// All twelve pieces, in the fixed order of `all_pieces`.
    pub fn iter() -> (r: [Piece; 12])
        ensures
            r@ == all_pieces(),
    {
        let r = [
            Piece::WhitePawn,
            Piece::WhiteKnight,
            Piece::WhiteBishop,
            Piece::WhiteRook,
            Piece::WhiteQueen,
            Piece::WhiteKing,
            Piece::BlackPawn,
            Piece::BlackKnight,
            Piece::BlackBishop,
            Piece::BlackRook,
            Piece::BlackQueen,
            Piece::BlackKing,
        ];
        assert(r@ =~= all_pieces());
        r
    }

    /// The one-character display glyph of the piece.
    pub fn str(&self) -> (r: &'static str)
        ensures
            r@ == seq![glyph(*self)],
    {
        match self {
            Piece::WhitePawn => {
                proof { reveal_strlit("P"); }
                "P"
            },
            Piece::WhiteKnight => {
                proof { reveal_strlit("N"); }
                "N"
            },
            Piece::WhiteBishop => {
                proof { reveal_strlit("B"); }
                "B"
            },
            Piece::WhiteRook => {
                proof { reveal_strlit("R"); }
                "R"
            },
            Piece::WhiteQueen => {
                proof { reveal_strlit("Q"); }
                "Q"
            },
            Piece::WhiteKing => {
                proof { reveal_strlit("K"); }
                "K"
            },
            Piece::BlackPawn => {
                proof { reveal_strlit("p"); }
                "p"
            },
            Piece::BlackKnight => {
                proof { reveal_strlit("n"); }
                "n"
            },
            Piece::BlackBishop => {
                proof { reveal_strlit("b"); }
                "b"
            },
            Piece::BlackRook => {
                proof { reveal_strlit("r"); }
                "r"
            },
            Piece::BlackQueen => {
                proof { reveal_strlit("q"); }
                "q"
            },
            Piece::BlackKing => {
                proof { reveal_strlit("k"); }
                "k"
            },
        }
    }

    /// The class of the piece.
    pub fn class(&self) -> (r: Class)
        ensures
            r == self.spec_class(),
    {
        match self {
            Piece::WhitePawn => Class::Pawn,
            Piece::WhiteKnight => Class::Knight,
            Piece::WhiteBishop => Class::Bishop,
            Piece::WhiteRook => Class::Rook,
            Piece::WhiteQueen => Class::Queen,
            Piece::WhiteKing => Class::King,
            Piece::BlackPawn => Class::Pawn,
            Piece::BlackKnight => Class::Knight,
            Piece::BlackBishop => Class::Bishop,
            Piece::BlackRook => Class::Rook,
            Piece::BlackQueen => Class::Queen,
            Piece::BlackKing => Class::King,
        }
    }

    /// The colour of the piece.
    pub fn colour(&self) -> (r: Colour)
        ensures
            r == self.spec_colour(),
    {
        match self {
            Piece::WhitePawn => Colour::White,
            Piece::WhiteKnight => Colour::White,
            Piece::WhiteBishop => Colour::White,
            Piece::WhiteRook => Colour::White,
            Piece::WhiteQueen => Colour::White,
            Piece::WhiteKing => Colour::White,
            Piece::BlackPawn => Colour::Black,
            Piece::BlackKnight => Colour::Black,
            Piece::BlackBishop => Colour::Black,
            Piece::BlackRook => Colour::Black,
            Piece::BlackQueen => Colour::Black,
            Piece::BlackKing => Colour::Black,
        }
    }
}

} // verus!
