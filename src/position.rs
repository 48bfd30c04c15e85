use vstd::prelude::*;

use crate::move_generation::{generate_pawn_attacks, pawn_attacks_square, pawns_colour};
use crate::pieces::{all_pieces, lemma_all_pieces_colour, Colour, Piece};
use crate::utils::{
    lemma_bit_ops, lemma_square_mask_and, lemma_square_mask_bit, occupies, square_mask,
};

verus! {

pub const FILE_A: u64 = 0x0101_0101_0101_0101;
pub const FILE_B: u64 = 0x0202_0202_0202_0202;
pub const FILE_G: u64 = 0x4040_4040_4040_4040;
pub const FILE_H: u64 = 0x8080_8080_8080_8080;
pub const FILES_AB: u64 = 0x0303_0303_0303_0303;
pub const FILES_GH: u64 = 0xc0c0_c0c0_c0c0_c0c0;
pub const RANK_1: u64 = 0x0000_0000_0000_00ff;
pub const RANK_2: u64 = 0x0000_0000_0000_ff00;
pub const RANK_7: u64 = 0x00ff_0000_0000_0000;
pub const RANK_8: u64 = 0xff00_0000_0000_0000;
pub const DARK_SQUARES: u64 = 0x55aa_55aa_55aa_55aa;
pub const LIGHT_SQUARES: u64 = 0xaa55_aa55_aa55_aa55;

/// Which squares the file and rank masks hold.
pub proof fn lemma_board_masks(i: u64)
    by (bit_vector)
    requires
        i < 64,
    ensures
        (FILE_A >> i) & 1u64 == 1u64 <==> i % 8 == 0,
        (FILE_H >> i) & 1u64 == 1u64 <==> i % 8 == 7,
        (FILES_AB >> i) & 1u64 == 1u64 <==> i % 8 < 2,
        (FILES_GH >> i) & 1u64 == 1u64 <==> i % 8 >= 6,
        (RANK_1 >> i) & 1u64 == 1u64 <==> i / 8 == 0,
        (RANK_2 >> i) & 1u64 == 1u64 <==> i / 8 == 1,
        (RANK_7 >> i) & 1u64 == 1u64 <==> i / 8 == 6,
        (RANK_8 >> i) & 1u64 == 1u64 <==> i / 8 == 7,
        (FILE_A >> i) & 1u64 == 0u64 <==> i % 8 != 0,
        (FILE_H >> i) & 1u64 == 0u64 <==> i % 8 != 7,
        (FILES_AB >> i) & 1u64 == 0u64 <==> i % 8 >= 2,
        (FILES_GH >> i) & 1u64 == 0u64 <==> i % 8 < 6,
{
}

/// A chess position: one bitboard for each of the twelve pieces, the side to
/// move, the squares of the last move and a reserved en passant mask.
#[derive(Clone, Copy, Debug, PartialEq, Eq, Structural)]
pub struct Position {
    pub white_pawn: u64,
    pub white_knight: u64,
    pub white_bishop: u64,
    pub white_rook: u64,
    pub white_queen: u64,
    pub white_king: u64,
    pub black_pawn: u64,
    pub black_knight: u64,
    pub black_bishop: u64,
    pub black_rook: u64,
    pub black_queen: u64,
    pub black_king: u64,
    pub turn: Colour,
    pub last_moved_squares: u64,
    pub en_passant_square: u64,
}

/// What a move from `origin` to `destination` makes of one piece's bitboard:
/// whatever stood on the destination is taken off, and if the piece stood on
/// the origin it is lifted from there and put on the destination.
pub open spec fn moved_bitboard(b: u64, origin: u64, destination: u64) -> u64 {
    let cleared = b & !destination;
    if origin & cleared != 0 {
        (cleared ^ origin) | destination
    } else {
        cleared
    }
}

/// Replacing one bitboard leaves the others and the other fields alone.
pub proof fn lemma_with_bitboard(pos: Position, p: Piece, b: u64)
    ensures
        forall|q: Piece|
            #[trigger] pos.with_bitboard(p, b).bitboard(q) == if q == p {
                b
            } else {
                pos.bitboard(q)
            },
        pos.with_bitboard(p, b).turn == pos.turn,
        pos.with_bitboard(p, b).last_moved_squares == pos.last_moved_squares,
        pos.with_bitboard(p, b).en_passant_square == pos.en_passant_square,
{
}

/// The twelve pieces of `all_pieces` are distinct.
pub proof fn lemma_all_pieces_distinct()
    ensures
        forall|i: int, j: int|
            0 <= i < 12 && 0 <= j < 12 && i != j ==> #[trigger] all_pieces()[i]
                != #[trigger] all_pieces()[j],
{
}

/// Two positions that agree on every bitboard and every other field are equal.
pub proof fn lemma_positions_equal(a: Position, b: Position)
    requires
        forall|j: int| 0 <= j < 12 ==> #[trigger] a.bitboard(all_pieces()[j]) == b.bitboard(all_pieces()[j]),
        a.turn == b.turn,
        a.last_moved_squares == b.last_moved_squares,
        a.en_passant_square == b.en_passant_square,
    ensures
        a == b,
{
    assert(a.bitboard(all_pieces()[0]) == b.bitboard(all_pieces()[0]));
    assert(a.bitboard(all_pieces()[1]) == b.bitboard(all_pieces()[1]));
    assert(a.bitboard(all_pieces()[2]) == b.bitboard(all_pieces()[2]));
    assert(a.bitboard(all_pieces()[3]) == b.bitboard(all_pieces()[3]));
    assert(a.bitboard(all_pieces()[4]) == b.bitboard(all_pieces()[4]));
    assert(a.bitboard(all_pieces()[5]) == b.bitboard(all_pieces()[5]));
    assert(a.bitboard(all_pieces()[6]) == b.bitboard(all_pieces()[6]));
    assert(a.bitboard(all_pieces()[7]) == b.bitboard(all_pieces()[7]));
    assert(a.bitboard(all_pieces()[8]) == b.bitboard(all_pieces()[8]));
    assert(a.bitboard(all_pieces()[9]) == b.bitboard(all_pieces()[9]));
    assert(a.bitboard(all_pieces()[10]) == b.bitboard(all_pieces()[10]));
    assert(a.bitboard(all_pieces()[11]) == b.bitboard(all_pieces()[11]));
}

/// Whether the piece at index `k` of `all_pieces` is on `square` and of the
/// wanted colour.
pub open spec fn piece_matches(pos: Position, square: u64, colour: Option<Colour>, k: int) -> bool {
    pos.bitboard(all_pieces()[k]) & square != 0 && (colour is None || colour == Some(
        all_pieces()[k].spec_colour(),
    ))
}

/// The search for the first matching piece finds the first index that
/// matches, and nothing when none does.
pub proof fn lemma_first_piece_from(pos: Position, square: u64, colour: Option<Colour>, k: int)
    requires
        0 <= k <= 12,
    ensures
        pos.first_piece_from(square, colour, k) is None <==> (forall|j: int|
            k <= j < 12 ==> !#[trigger] piece_matches(pos, square, colour, j)),
        pos.first_piece_from(square, colour, k) is Some ==> exists|j: int|
            k <= j < 12 && #[trigger] piece_matches(pos, square, colour, j) && all_pieces()[j]
                == pos.first_piece_from(square, colour, k)->0 && forall|l: int|
                k <= l < j ==> !piece_matches(pos, square, colour, l),
    decreases 12 - k,
{
    if k < 12 {
        lemma_first_piece_from(pos, square, colour, k + 1);
        if piece_matches(pos, square, colour, k) {
            assert(pos.first_piece_from(square, colour, k) == Some(all_pieces()[k]));
        } else {
            assert(pos.first_piece_from(square, colour, k) == pos.first_piece_from(
                square,
                colour,
                k + 1,
            ));
            if pos.first_piece_from(square, colour, k) is None {
                assert forall|j: int| k <= j < 12 implies !#[trigger] piece_matches(
                    pos,
                    square,
                    colour,
                    j,
                ) by {
                    if j > k {
                    }
                }
            }
        }
    }
}

/// The bits of the occupancy masks are those of the pieces' bitboards.
pub proof fn lemma_occupancy_bits(pos: Position, i: int)
    requires
        0 <= i < 64,
    ensures
        occupies(pos.spec_occupancy(), i) <==> exists|j: int|
            0 <= j < 12 && #[trigger] occupies(pos.bitboard(all_pieces()[j]), i),
        forall|c: Colour|
            #[trigger] occupies(pos.spec_colour_occupancy(c), i) <==> exists|j: int|
                0 <= j < 12 && all_pieces()[j].spec_colour() == c && #[trigger] occupies(
                    pos.bitboard(all_pieces()[j]),
                    i,
                ),
{
    lemma_bit_ops(pos.white_pawn, pos.white_knight, i as u64);
    lemma_bit_ops(pos.white_pawn | pos.white_knight, pos.white_bishop, i as u64);
    lemma_bit_ops(pos.white_pawn | pos.white_knight | pos.white_bishop, pos.white_rook, i as u64);
    lemma_bit_ops(pos.white_pawn | pos.white_knight | pos.white_bishop | pos.white_rook, pos.white_queen, i as u64);
    lemma_bit_ops(pos.white_pawn | pos.white_knight | pos.white_bishop | pos.white_rook | pos.white_queen, pos.white_king, i as u64);
    lemma_bit_ops(pos.white_pawn | pos.white_knight | pos.white_bishop | pos.white_rook | pos.white_queen | pos.white_king, pos.black_pawn, i as u64);
    lemma_bit_ops(pos.white_pawn | pos.white_knight | pos.white_bishop | pos.white_rook | pos.white_queen | pos.white_king | pos.black_pawn, pos.black_knight, i as u64);
    lemma_bit_ops(pos.white_pawn | pos.white_knight | pos.white_bishop | pos.white_rook | pos.white_queen | pos.white_king | pos.black_pawn | pos.black_knight, pos.black_bishop, i as u64);
    lemma_bit_ops(pos.white_pawn | pos.white_knight | pos.white_bishop | pos.white_rook | pos.white_queen | pos.white_king | pos.black_pawn | pos.black_knight | pos.black_bishop, pos.black_rook, i as u64);
    lemma_bit_ops(pos.white_pawn | pos.white_knight | pos.white_bishop | pos.white_rook | pos.white_queen | pos.white_king | pos.black_pawn | pos.black_knight | pos.black_bishop | pos.black_rook, pos.black_queen, i as u64);
    lemma_bit_ops(pos.white_pawn | pos.white_knight | pos.white_bishop | pos.white_rook | pos.white_queen | pos.white_king | pos.black_pawn | pos.black_knight | pos.black_bishop | pos.black_rook | pos.black_queen, pos.black_king, i as u64);
    lemma_bit_ops(pos.white_pawn, pos.white_knight, i as u64);
    lemma_bit_ops(pos.white_pawn | pos.white_knight, pos.white_bishop, i as u64);
    lemma_bit_ops(pos.white_pawn | pos.white_knight | pos.white_bishop, pos.white_rook, i as u64);
    lemma_bit_ops(pos.white_pawn | pos.white_knight | pos.white_bishop | pos.white_rook, pos.white_queen, i as u64);
    lemma_bit_ops(pos.white_pawn | pos.white_knight | pos.white_bishop | pos.white_rook | pos.white_queen, pos.white_king, i as u64);
    lemma_bit_ops(pos.black_pawn, pos.black_knight, i as u64);
    lemma_bit_ops(pos.black_pawn | pos.black_knight, pos.black_bishop, i as u64);
    lemma_bit_ops(pos.black_pawn | pos.black_knight | pos.black_bishop, pos.black_rook, i as u64);
    lemma_bit_ops(pos.black_pawn | pos.black_knight | pos.black_bishop | pos.black_rook, pos.black_queen, i as u64);
    lemma_bit_ops(pos.black_pawn | pos.black_knight | pos.black_bishop | pos.black_rook | pos.black_queen, pos.black_king, i as u64);
    assert(all_pieces()[0] == Piece::WhitePawn);
    assert(all_pieces()[1] == Piece::WhiteKnight);
    assert(all_pieces()[2] == Piece::WhiteBishop);
    assert(all_pieces()[3] == Piece::WhiteRook);
    assert(all_pieces()[4] == Piece::WhiteQueen);
    assert(all_pieces()[5] == Piece::WhiteKing);
    assert(all_pieces()[6] == Piece::BlackPawn);
    assert(all_pieces()[7] == Piece::BlackKnight);
    assert(all_pieces()[8] == Piece::BlackBishop);
    assert(all_pieces()[9] == Piece::BlackRook);
    assert(all_pieces()[10] == Piece::BlackQueen);
    assert(all_pieces()[11] == Piece::BlackKing);
    if occupies(pos.white_pawn, i) {
        assert(occupies(pos.bitboard(all_pieces()[0]), i));
    }
    if occupies(pos.white_knight, i) {
        assert(occupies(pos.bitboard(all_pieces()[1]), i));
    }
    if occupies(pos.white_bishop, i) {
        assert(occupies(pos.bitboard(all_pieces()[2]), i));
    }
    if occupies(pos.white_rook, i) {
        assert(occupies(pos.bitboard(all_pieces()[3]), i));
    }
    if occupies(pos.white_queen, i) {
        assert(occupies(pos.bitboard(all_pieces()[4]), i));
    }
    if occupies(pos.white_king, i) {
        assert(occupies(pos.bitboard(all_pieces()[5]), i));
    }
    if occupies(pos.black_pawn, i) {
        assert(occupies(pos.bitboard(all_pieces()[6]), i));
    }
    if occupies(pos.black_knight, i) {
        assert(occupies(pos.bitboard(all_pieces()[7]), i));
    }
    if occupies(pos.black_bishop, i) {
        assert(occupies(pos.bitboard(all_pieces()[8]), i));
    }
    if occupies(pos.black_rook, i) {
        assert(occupies(pos.bitboard(all_pieces()[9]), i));
    }
    if occupies(pos.black_queen, i) {
        assert(occupies(pos.bitboard(all_pieces()[10]), i));
    }
    if occupies(pos.black_king, i) {
        assert(occupies(pos.bitboard(all_pieces()[11]), i));
    }
    assert forall|j: int| 0 <= j < 12 && #[trigger] occupies(pos.bitboard(all_pieces()[j]), i) implies occupies(pos.spec_occupancy(), i) && occupies(pos.spec_colour_occupancy(all_pieces()[j].spec_colour()), i) by {
    }
}

/// On a single square, the piece lookup agrees with the occupancy masks.
pub proof fn lemma_piece_at_square(pos: Position, i: int)
    requires
        0 <= i < 64,
    ensures
        pos.spec_piece_at(square_mask(i)) is None <==> !occupies(pos.spec_occupancy(), i),
        pos.spec_piece_at(square_mask(i)) is Some ==> occupies(
            pos.spec_colour_occupancy(pos.spec_piece_at(square_mask(i))->0.spec_colour()),
            i,
        ),
        pos.spec_piece_at(square_mask(i)) is Some && pos.spec_piece_at(square_mask(i))->0.spec_colour()
            == Colour::Black ==> !occupies(pos.spec_colour_occupancy(Colour::White), i),
        occupies(pos.spec_colour_occupancy(Colour::White), i) ==> occupies(pos.spec_occupancy(), i),
        occupies(pos.spec_colour_occupancy(Colour::Black), i) ==> occupies(pos.spec_occupancy(), i),
{
    let sq = square_mask(i);
    assert forall|j: int| 0 <= j < 12 implies #[trigger] piece_matches(pos, sq, None, j) <==> occupies(
        pos.bitboard(all_pieces()[j]),
        i,
    ) by {
        lemma_square_mask_and(i as u64, pos.bitboard(all_pieces()[j]));
    }
    lemma_first_piece_from(pos, sq, None, 0);
    lemma_occupancy_bits(pos, i);
    lemma_all_pieces_colour();
    assert(occupies(pos.spec_colour_occupancy(Colour::White), i) ==> occupies(pos.spec_occupancy(), i));
    assert(occupies(pos.spec_colour_occupancy(Colour::Black), i) ==> occupies(pos.spec_occupancy(), i));
    if pos.spec_piece_at(sq) is Some {
        let p = pos.spec_piece_at(sq)->0;
        let j = choose|j: int|
            0 <= j < 12 && #[trigger] piece_matches(pos, sq, None, j) && all_pieces()[j] == p
                && forall|l: int| 0 <= l < j ==> !piece_matches(pos, sq, None, l);
        assert(occupies(pos.bitboard(all_pieces()[j]), i));
        if p.spec_colour() == Colour::Black {
            assert forall|l: int| 0 <= l < 12 && all_pieces()[l].spec_colour() == Colour::White implies !#[trigger] occupies(pos.bitboard(all_pieces()[l]), i) by {
                assert(!piece_matches(pos, sq, None, l));
            }
        }
    } else if occupies(pos.spec_occupancy(), i) {
        let j = choose|j: int| 0 <= j < 12 && #[trigger] occupies(pos.bitboard(all_pieces()[j]), i);
        assert(piece_matches(pos, sq, None, j));
    }
}

/// The bits of a piece's bitboard after a move between two distinct squares.
pub proof fn lemma_moved_bitboard_bits(b: u64, o: int, d: int, j: int)
    requires
        0 <= o < 64,
        0 <= d < 64,
        0 <= j < 64,
        o != d,
    ensures
        occupies(moved_bitboard(b, square_mask(o), square_mask(d)), j) <==> if occupies(b, o) {
            (occupies(b, j) && j != o && j != d) || j == d
        } else {
            occupies(b, j) && j != d
        },
{
    let om = square_mask(o);
    let dm = square_mask(d);
    let cleared = b & !dm;
    let ju = j as u64;
    lemma_bit_ops(b, !dm, ju);
    lemma_bit_ops(dm, dm, ju);
    lemma_bit_ops(cleared ^ om, dm, ju);
    lemma_bit_ops(cleared, om, ju);
    lemma_square_mask_bit(o as u64, ju);
    lemma_square_mask_bit(d as u64, ju);
    lemma_square_mask_and(o as u64, cleared);
    lemma_bit_ops(b, !dm, o as u64);
    lemma_bit_ops(dm, dm, o as u64);
    lemma_square_mask_bit(d as u64, o as u64);
}

/// A move onto a square held by the other side takes that piece off: its
/// bitboard loses the destination, the moving piece's bitboard gains the
/// destination and loses the origin, and the turn passes.
pub proof fn lemma_move_captures(
    before: Position,
    origin: int,
    destination: int,
    mover: Piece,
    victim: Piece,
)
    requires
        before.well_formed(),
        0 <= origin < 64,
        0 <= destination < 64,
        occupies(before.bitboard(mover), origin),
        occupies(before.bitboard(victim), destination),
        victim.spec_colour() != mover.spec_colour(),
    ensures
        ({
            let after = before.spec_after_move(square_mask(origin), square_mask(destination));
            &&& !occupies(after.bitboard(victim), destination)
            &&& occupies(after.bitboard(mover), destination)
            &&& !occupies(after.bitboard(mover), origin)
            &&& after.turn == before.turn.spec_opposite()
        }),
{
    let after = before.spec_after_move(square_mask(origin), square_mask(destination));
    assert(before.bitboard(mover) & before.bitboard(victim) == 0);
    lemma_bit_ops(before.bitboard(mover), before.bitboard(victim), origin as u64);
    lemma_bit_ops(before.bitboard(mover), before.bitboard(victim), destination as u64);
    lemma_bit_ops(0, 0, origin as u64);
    lemma_bit_ops(0, 0, destination as u64);
    assert(origin != destination);
    assert(after.bitboard(victim) == moved_bitboard(before.bitboard(victim), square_mask(origin), square_mask(destination)));
    assert(after.bitboard(mover) == moved_bitboard(before.bitboard(mover), square_mask(origin), square_mask(destination)));
    lemma_moved_bitboard_bits(before.bitboard(victim), origin, destination, destination);
    lemma_moved_bitboard_bits(before.bitboard(mover), origin, destination, destination);
    lemma_moved_bitboard_bits(before.bitboard(mover), origin, destination, origin);
}

/// A board meets any union that holds it, and misses a union of boards it
/// misses one by one.
pub proof fn lemma_union_meets(x: u64, a: u64, b: u64, c: u64, d: u64, e: u64, f: u64)
    by (bit_vector)
    ensures
        x & (((((x | b) | c) | d) | e) | f) == x,
        (x & a == 0 && x & b == 0 && x & c == 0 && x & d == 0 && x & e == 0 && x & f == 0) ==> x
            & (((((a | b) | c) | d) | e) | f) == 0,
{
}

/// In a position where no two pieces share a square, the pawns of a colour,
/// if there are any, are taken to be of that colour.
pub proof fn lemma_pawns_colour(pos: Position, c: Colour)
    requires
        pos.well_formed(),
    ensures
        pos.pawns_of(c) == 0 || pawns_colour(pos, pos.pawns_of(c)) == c,
{
    lemma_union_meets(
        pos.white_pawn,
        pos.white_pawn,
        pos.white_knight,
        pos.white_bishop,
        pos.white_rook,
        pos.white_queen,
        pos.white_king,
    );
    assert(pos.bitboard(Piece::BlackPawn) & pos.bitboard(Piece::WhitePawn) == 0);
    assert(pos.bitboard(Piece::BlackPawn) & pos.bitboard(Piece::WhiteKnight) == 0);
    assert(pos.bitboard(Piece::BlackPawn) & pos.bitboard(Piece::WhiteBishop) == 0);
    assert(pos.bitboard(Piece::BlackPawn) & pos.bitboard(Piece::WhiteRook) == 0);
    assert(pos.bitboard(Piece::BlackPawn) & pos.bitboard(Piece::WhiteQueen) == 0);
    assert(pos.bitboard(Piece::BlackPawn) & pos.bitboard(Piece::WhiteKing) == 0);
    lemma_union_meets(
        pos.black_pawn,
        pos.white_pawn,
        pos.white_knight,
        pos.white_bishop,
        pos.white_rook,
        pos.white_queen,
        pos.white_king,
    );
}

/// Two disjoint bitboards stay disjoint through a move between two squares.
pub proof fn lemma_moved_disjoint(a: u64, b: u64, o: u64, d: u64)
    by (bit_vector)
    requires
        a & b == 0,
        o < 64,
        d < 64,
    ensures
        moved_bitboard(a, 1u64 << o, 1u64 << d) & moved_bitboard(b, 1u64 << o, 1u64 << d) == 0,
{
}

/// A move between two squares keeps every square to at most one piece.
pub proof fn lemma_move_keeps_well_formed(before: Position, origin: int, destination: int)
    requires
        before.well_formed(),
        0 <= origin < 64,
        0 <= destination < 64,
    ensures
        before.spec_after_move(square_mask(origin), square_mask(destination)).well_formed(),
{
    let after = before.spec_after_move(square_mask(origin), square_mask(destination));
    assert forall|a: Piece, b: Piece| a != b implies #[trigger] after.bitboard(a) & #[trigger] after.bitboard(b) == 0 by {
        assert(before.bitboard(a) & before.bitboard(b) == 0);
        lemma_moved_disjoint(before.bitboard(a), before.bitboard(b), origin as u64, destination as u64);
    }
}

impl Position {
    /// The bitboard of one piece.
    pub open spec fn bitboard(self, p: Piece) -> u64 {
        match p {
            Piece::WhitePawn => self.white_pawn,
            Piece::WhiteKnight => self.white_knight,
            Piece::WhiteBishop => self.white_bishop,
            Piece::WhiteRook => self.white_rook,
            Piece::WhiteQueen => self.white_queen,
            Piece::WhiteKing => self.white_king,
            Piece::BlackPawn => self.black_pawn,
            Piece::BlackKnight => self.black_knight,
            Piece::BlackBishop => self.black_bishop,
            Piece::BlackRook => self.black_rook,
            Piece::BlackQueen => self.black_queen,
            Piece::BlackKing => self.black_king,
        }
    }

    /// The same position with the bitboard of `p` replaced by `b`.
    pub open spec fn with_bitboard(self, p: Piece, b: u64) -> Position {
        match p {
            Piece::WhitePawn => Position { white_pawn: b, ..self },
            Piece::WhiteKnight => Position { white_knight: b, ..self },
            Piece::WhiteBishop => Position { white_bishop: b, ..self },
            Piece::WhiteRook => Position { white_rook: b, ..self },
            Piece::WhiteQueen => Position { white_queen: b, ..self },
            Piece::WhiteKing => Position { white_king: b, ..self },
            Piece::BlackPawn => Position { black_pawn: b, ..self },
            Piece::BlackKnight => Position { black_knight: b, ..self },
            Piece::BlackBishop => Position { black_bishop: b, ..self },
            Piece::BlackRook => Position { black_rook: b, ..self },
            Piece::BlackQueen => Position { black_queen: b, ..self },
            Piece::BlackKing => Position { black_king: b, ..self },
        }
    }

    /// Every occupied square.
    pub open spec fn spec_occupancy(self) -> u64 {
        self.white_pawn | self.white_knight | self.white_bishop | self.white_rook
            | self.white_queen | self.white_king | self.black_pawn | self.black_knight
            | self.black_bishop | self.black_rook | self.black_queen | self.black_king
    }

    /// Every square occupied by a piece of colour `c`.
    pub open spec fn spec_colour_occupancy(self, c: Colour) -> u64 {
        match c {
            Colour::White => self.white_pawn | self.white_knight | self.white_bishop
                | self.white_rook | self.white_queen | self.white_king,
            Colour::Black => self.black_pawn | self.black_knight | self.black_bishop
                | self.black_rook | self.black_queen | self.black_king,
        }
    }

    /// The first piece, from index `k` of `all_pieces` on, whose bitboard
    /// meets `square` (and that has colour `colour`, where one is given).
    pub open spec fn first_piece_from(self, square: u64, colour: Option<Colour>, k: int) -> Option<Piece>
        decreases 12 - k,
    {
        if k < 0 || k >= 12 {
            None
        } else if self.bitboard(all_pieces()[k]) & square != 0 && (colour is None
            || colour == Some(all_pieces()[k].spec_colour())) {
            Some(all_pieces()[k])
        } else {
            self.first_piece_from(square, colour, k + 1)
        }
    }

    /// The first piece, in the order of `all_pieces`, found on `square`.
    pub open spec fn spec_piece_at(self, square: u64) -> Option<Piece> {
        self.first_piece_from(square, None, 0)
    }

    /// The first piece of colour `c`, in the order of `all_pieces`, found on
    /// `square`.
    pub open spec fn spec_piece_with_colour_at(self, square: u64, c: Colour) -> Option<Piece> {
        self.first_piece_from(square, Some(c), 0)
    }

    /// No two pieces share a square.
    pub open spec fn well_formed(self) -> bool {
        forall|a: Piece, b: Piece|
            a != b ==> #[trigger] self.bitboard(a) & #[trigger] self.bitboard(b) == 0
    }

    /// The position after moving from `origin` to `destination`.
    pub open spec fn spec_after_move(self, origin: u64, destination: u64) -> Position {
        Position {
            white_pawn: moved_bitboard(self.white_pawn, origin, destination),
            white_knight: moved_bitboard(self.white_knight, origin, destination),
            white_bishop: moved_bitboard(self.white_bishop, origin, destination),
            white_rook: moved_bitboard(self.white_rook, origin, destination),
            white_queen: moved_bitboard(self.white_queen, origin, destination),
            white_king: moved_bitboard(self.white_king, origin, destination),
            black_pawn: moved_bitboard(self.black_pawn, origin, destination),
            black_knight: moved_bitboard(self.black_knight, origin, destination),
            black_bishop: moved_bitboard(self.black_bishop, origin, destination),
            black_rook: moved_bitboard(self.black_rook, origin, destination),
            black_queen: moved_bitboard(self.black_queen, origin, destination),
            black_king: moved_bitboard(self.black_king, origin, destination),
            turn: self.turn.spec_opposite(),
            last_moved_squares: origin | destination,
            en_passant_square: self.en_passant_square,
        }
    }

    /// The bitboard of `piece`.
    pub fn get_bitboard(&self, piece: &Piece) -> (r: u64)
        ensures
            r == self.bitboard(*piece),
    {
        match piece {
            Piece::WhitePawn => self.white_pawn,
            Piece::WhiteKnight => self.white_knight,
            Piece::WhiteBishop => self.white_bishop,
            Piece::WhiteRook => self.white_rook,
            Piece::WhiteQueen => self.white_queen,
            Piece::WhiteKing => self.white_king,
            Piece::BlackPawn => self.black_pawn,
            Piece::BlackKnight => self.black_knight,
            Piece::BlackBishop => self.black_bishop,
            Piece::BlackRook => self.black_rook,
            Piece::BlackQueen => self.black_queen,
            Piece::BlackKing => self.black_king,
        }
    }

    /// A mutable reference to the bitboard of `piece`.
    pub fn get_bitboard_mut(&mut self, piece: &Piece) -> (r: &mut u64)
        ensures
            *r == old(self).bitboard(*piece),
            *final(self) == old(self).with_bitboard(*piece, *final(r)),
    {
        match piece {
            Piece::WhitePawn => &mut self.white_pawn,
            Piece::WhiteKnight => &mut self.white_knight,
            Piece::WhiteBishop => &mut self.white_bishop,
            Piece::WhiteRook => &mut self.white_rook,
            Piece::WhiteQueen => &mut self.white_queen,
            Piece::WhiteKing => &mut self.white_king,
            Piece::BlackPawn => &mut self.black_pawn,
            Piece::BlackKnight => &mut self.black_knight,
            Piece::BlackBishop => &mut self.black_bishop,
            Piece::BlackRook => &mut self.black_rook,
            Piece::BlackQueen => &mut self.black_queen,
            Piece::BlackKing => &mut self.black_king,
        }
    }

    /// Every occupied square.
    pub fn get_occupancy(&self) -> (r: u64)
        ensures
            r == self.spec_occupancy(),
    {
        self.white_pawn | self.white_knight | self.white_bishop | self.white_rook
            | self.white_queen | self.white_king | self.black_pawn | self.black_knight
            | self.black_bishop | self.black_rook | self.black_queen | self.black_king
    }

    /// Every square occupied by a piece of `colour`.
    pub fn get_colour_occupancy(&self, colour: &Colour) -> (r: u64)
        ensures
            r == self.spec_colour_occupancy(*colour),
    {
        match colour {
            Colour::White => {
                self.white_pawn | self.white_knight | self.white_bishop | self.white_rook
                    | self.white_queen | self.white_king
            },
            Colour::Black => {
                self.black_pawn | self.black_knight | self.black_bishop | self.black_rook
                    | self.black_queen | self.black_king
            },
        }
    }

    /// The first piece of `colour`, in the fixed piece order, found on
    /// `square`, if any.
    pub fn get_piece_with_colour_at(&self, square: &u64, colour: &Colour) -> (r: Option<Piece>)
        ensures
            r == self.spec_piece_with_colour_at(*square, *colour),
    {
        let pieces = Piece::iter();
        let mut k: usize = 0;
        while k < 12
            invariant
                pieces@ == all_pieces(),
                k <= 12,
                self.spec_piece_with_colour_at(*square, *colour) == self.first_piece_from(
                    *square,
                    Some(*colour),
                    k as int,
                ),
            decreases 12 - k,
        {
            let piece = pieces[k];
            let has_piece = self.get_bitboard(&piece) & *square != 0;
            if has_piece && piece.colour() == *colour {
                return Some(piece);
            }
            k += 1;
        }
        None
    }

    /// The first piece, in the fixed piece order, found on `square`, if any.
    pub fn get_piece_at(&self, square: &u64) -> (r: Option<Piece>)
        ensures
            r == self.spec_piece_at(*square),
    {
        let pieces = Piece::iter();
        let mut k: usize = 0;
        while k < 12
            invariant
                pieces@ == all_pieces(),
                k <= 12,
                self.spec_piece_at(*square) == self.first_piece_from(*square, None, k as int),
            decreases 12 - k,
        {
            let piece = pieces[k];
            if self.get_bitboard(&piece) & *square != 0 {
                return Some(piece);
            }
            k += 1;
        }
        None
    }

    /// Adds the squares of `square` to the bitboard of `piece`, whether or
    /// not they are free: meant for setting up a position.
    pub fn insert_piece_at_square(&mut self, piece: &Piece, square: &u64)
        ensures
            *final(self) == old(self).with_bitboard(*piece, old(self).bitboard(*piece) | *square),
    {
        let bitboard = self.get_bitboard_mut(piece);
        *bitboard = *bitboard | *square;
    }

    /// Moves whatever stands on `origin_square` to `destination_square`,
    /// taking off whatever stood there, records both squares as the last move
    /// and passes the turn. Nothing is checked: the caller has validated the
    /// move.
    pub fn move_piece(&mut self, origin_square: &u64, destination_square: &u64)
        ensures
            *final(self) == old(self).spec_after_move(*origin_square, *destination_square),
    {
        let pieces = Piece::iter();
        let ghost before = *self;
        self.last_moved_squares = *origin_square | *destination_square;
        self.turn = self.turn.opposite();
        let mut k: usize = 0;
        while k < 12
            invariant
                pieces@ == all_pieces(),
                k <= 12,
                self.turn == before.turn.spec_opposite(),
                self.en_passant_square == before.en_passant_square,
                self.last_moved_squares == *origin_square | *destination_square,
                forall|j: int|
                    0 <= j < k ==> #[trigger] self.bitboard(all_pieces()[j]) == moved_bitboard(
                        before.bitboard(all_pieces()[j]),
                        *origin_square,
                        *destination_square,
                    ),
                forall|j: int|
                    k <= j < 12 ==> #[trigger] self.bitboard(all_pieces()[j]) == before.bitboard(
                        all_pieces()[j],
                    ),
            decreases 12 - k,
        {
            let piece = pieces[k];
            proof {
                lemma_all_pieces_distinct();
                lemma_with_bitboard(*self, piece, moved_bitboard(self.bitboard(piece), *origin_square, *destination_square));
            }
            let bitboard = self.get_bitboard_mut(&piece);
            // the destination is cleared of whatever stood there
            *bitboard = *bitboard & !*destination_square;
            if *origin_square & *bitboard != 0 {
                *bitboard = *bitboard ^ *origin_square;
                *bitboard = *bitboard | *destination_square;
            }
            k += 1;
        }
        proof {
            let after = before.spec_after_move(*origin_square, *destination_square);
            assert forall|j: int| 0 <= j < 12 implies #[trigger] self.bitboard(all_pieces()[j]) == after.bitboard(all_pieces()[j]) by {
                assert(after.bitboard(all_pieces()[j]) == moved_bitboard(before.bitboard(all_pieces()[j]), *origin_square, *destination_square));
            }
            lemma_positions_equal(*self, before.spec_after_move(*origin_square, *destination_square));
        }
    }

    /// The pawns of colour `c`.
    pub open spec fn pawns_of(self, c: Colour) -> u64 {
        match c {
            Colour::White => self.white_pawn,
            Colour::Black => self.black_pawn,
        }
    }

    /// The squares that the pawns of `colour` attack, diagonally forward.
    pub fn get_attacks_of_colour(&self, colour: &Colour) -> (r: u64)
        ensures
            forall|j: int|
                0 <= j < 64 ==> (occupies(r, j) <==> exists|i: int|
                    0 <= i < 64 && #[trigger] occupies(self.pawns_of(*colour), i)
                        && pawn_attacks_square(pawns_colour(*self, self.pawns_of(*colour)), i, j)),
            self.well_formed() ==> forall|j: int|
                0 <= j < 64 ==> (occupies(r, j) <==> exists|i: int|
                    0 <= i < 64 && #[trigger] occupies(self.pawns_of(*colour), i)
                        && pawn_attacks_square(*colour, i, j)),
    {
        proof {
            if self.well_formed() {
                lemma_pawns_colour(*self, *colour);
                if self.pawns_of(*colour) == 0 {
                    assert forall|i: int| 0 <= i < 64 implies !occupies(self.pawns_of(*colour), i) by {
                        lemma_bit_ops(0, 0, i as u64);
                    }
                }
            }
        }
        match colour {
            Colour::White => generate_pawn_attacks(self, &self.white_pawn),
            Colour::Black => generate_pawn_attacks(self, &self.black_pawn),
        }
    }
}

/// The standard starting arrangement: white on ranks 1 and 2, black on ranks
/// 7 and 8, white to move.
pub fn get_starting_position() -> (r: Position)
    ensures
        r.white_pawn == RANK_2,
        r.white_knight == square_mask(1) | square_mask(6),
        r.white_bishop == square_mask(2) | square_mask(5),
        r.white_rook == square_mask(0) | square_mask(7),
        r.white_queen == square_mask(3),
        r.white_king == square_mask(4),
        r.black_pawn == RANK_7,
        r.black_knight == square_mask(57) | square_mask(62),
        r.black_bishop == square_mask(58) | square_mask(61),
        r.black_rook == square_mask(56) | square_mask(63),
        r.black_queen == square_mask(59),
        r.black_king == square_mask(60),
        r.turn == Colour::White,
        r.last_moved_squares == 0,
        r.en_passant_square == 0,
        r.well_formed(),
{
    let starting_position = Position {
        white_pawn: 0x0000_0000_0000_ff00,
        white_knight: 0x42,
        white_bishop: 0x24,
        white_rook: 0x81,
        white_queen: 0x08,
        white_king: 0x10,
        black_pawn: 0x00ff_0000_0000_0000,
        black_knight: 0x4200_0000_0000_0000,
        black_bishop: 0x2400_0000_0000_0000,
        black_rook: 0x8100_0000_0000_0000,
        black_queen: 0x0800_0000_0000_0000,
        black_king: 0x1000_0000_0000_0000,
        turn: Colour::White,
        last_moved_squares: 0,
        en_passant_square: 0,
    };
    proof {
        assert(0x42u64 == (1u64 << 1u64) | (1u64 << 6u64) && 0x24u64 == (1u64 << 2u64) | (1u64 << 5u64) && 0x81u64 == (1u64 << 0u64) | (1u64 << 7u64) && 0x08u64 == (1u64 << 3u64) && 0x10u64 == (1u64 << 4u64) && 0x4200_0000_0000_0000u64 == (1u64 << 57u64) | (1u64 << 62u64) && 0x2400_0000_0000_0000u64 == (1u64 << 58u64) | (1u64 << 61u64) && 0x8100_0000_0000_0000u64 == (1u64 << 56u64) | (1u64 << 63u64) && 0x0800_0000_0000_0000u64 == (1u64 << 59u64) && 0x1000_0000_0000_0000u64 == (1u64 << 60u64)) by (bit_vector);
        assert(0x0000_0000_0000_ff00u64 & 0x42u64 == 0 && 0x42u64 & 0x0000_0000_0000_ff00u64 == 0 && 0x0000_0000_0000_ff00u64 & 0x24u64 == 0 && 0x24u64 & 0x0000_0000_0000_ff00u64 == 0 && 0x0000_0000_0000_ff00u64 & 0x81u64 == 0 && 0x81u64 & 0x0000_0000_0000_ff00u64 == 0 && 0x0000_0000_0000_ff00u64 & 0x08u64 == 0 && 0x08u64 & 0x0000_0000_0000_ff00u64 == 0 && 0x0000_0000_0000_ff00u64 & 0x10u64 == 0 && 0x10u64 & 0x0000_0000_0000_ff00u64 == 0 && 0x0000_0000_0000_ff00u64 & 0x00ff_0000_0000_0000u64 == 0 && 0x00ff_0000_0000_0000u64 & 0x0000_0000_0000_ff00u64 == 0 && 0x0000_0000_0000_ff00u64 & 0x4200_0000_0000_0000u64 == 0 && 0x4200_0000_0000_0000u64 & 0x0000_0000_0000_ff00u64 == 0 && 0x0000_0000_0000_ff00u64 & 0x2400_0000_0000_0000u64 == 0 && 0x2400_0000_0000_0000u64 & 0x0000_0000_0000_ff00u64 == 0 && 0x0000_0000_0000_ff00u64 & 0x8100_0000_0000_0000u64 == 0 && 0x8100_0000_0000_0000u64 & 0x0000_0000_0000_ff00u64 == 0 && 0x0000_0000_0000_ff00u64 & 0x0800_0000_0000_0000u64 == 0 && 0x0800_0000_0000_0000u64 & 0x0000_0000_0000_ff00u64 == 0 && 0x0000_0000_0000_ff00u64 & 0x1000_0000_0000_0000u64 == 0 && 0x1000_0000_0000_0000u64 & 0x0000_0000_0000_ff00u64 == 0 && 0x42u64 & 0x24u64 == 0 && 0x24u64 & 0x42u64 == 0 && 0x42u64 & 0x81u64 == 0 && 0x81u64 & 0x42u64 == 0 && 0x42u64 & 0x08u64 == 0 && 0x08u64 & 0x42u64 == 0 && 0x42u64 & 0x10u64 == 0 && 0x10u64 & 0x42u64 == 0 && 0x42u64 & 0x00ff_0000_0000_0000u64 == 0 && 0x00ff_0000_0000_0000u64 & 0x42u64 == 0 && 0x42u64 & 0x4200_0000_0000_0000u64 == 0 && 0x4200_0000_0000_0000u64 & 0x42u64 == 0 && 0x42u64 & 0x2400_0000_0000_0000u64 == 0 && 0x2400_0000_0000_0000u64 & 0x42u64 == 0 && 0x42u64 & 0x8100_0000_0000_0000u64 == 0 && 0x8100_0000_0000_0000u64 & 0x42u64 == 0 && 0x42u64 & 0x0800_0000_0000_0000u64 == 0 && 0x0800_0000_0000_0000u64 & 0x42u64 == 0 && 0x42u64 & 0x1000_0000_0000_0000u64 == 0 && 0x1000_0000_0000_0000u64 & 0x42u64 == 0 && 0x24u64 & 0x81u64 == 0 && 0x81u64 & 0x24u64 == 0 && 0x24u64 & 0x08u64 == 0 && 0x08u64 & 0x24u64 == 0 && 0x24u64 & 0x10u64 == 0 && 0x10u64 & 0x24u64 == 0 && 0x24u64 & 0x00ff_0000_0000_0000u64 == 0 && 0x00ff_0000_0000_0000u64 & 0x24u64 == 0 && 0x24u64 & 0x4200_0000_0000_0000u64 == 0 && 0x4200_0000_0000_0000u64 & 0x24u64 == 0 && 0x24u64 & 0x2400_0000_0000_0000u64 == 0 && 0x2400_0000_0000_0000u64 & 0x24u64 == 0 && 0x24u64 & 0x8100_0000_0000_0000u64 == 0 && 0x8100_0000_0000_0000u64 & 0x24u64 == 0 && 0x24u64 & 0x0800_0000_0000_0000u64 == 0 && 0x0800_0000_0000_0000u64 & 0x24u64 == 0 && 0x24u64 & 0x1000_0000_0000_0000u64 == 0 && 0x1000_0000_0000_0000u64 & 0x24u64 == 0 && 0x81u64 & 0x08u64 == 0 && 0x08u64 & 0x81u64 == 0 && 0x81u64 & 0x10u64 == 0 && 0x10u64 & 0x81u64 == 0 && 0x81u64 & 0x00ff_0000_0000_0000u64 == 0 && 0x00ff_0000_0000_0000u64 & 0x81u64 == 0 && 0x81u64 & 0x4200_0000_0000_0000u64 == 0 && 0x4200_0000_0000_0000u64 & 0x81u64 == 0 && 0x81u64 & 0x2400_0000_0000_0000u64 == 0 && 0x2400_0000_0000_0000u64 & 0x81u64 == 0 && 0x81u64 & 0x8100_0000_0000_0000u64 == 0 && 0x8100_0000_0000_0000u64 & 0x81u64 == 0 && 0x81u64 & 0x0800_0000_0000_0000u64 == 0 && 0x0800_0000_0000_0000u64 & 0x81u64 == 0 && 0x81u64 & 0x1000_0000_0000_0000u64 == 0 && 0x1000_0000_0000_0000u64 & 0x81u64 == 0 && 0x08u64 & 0x10u64 == 0 && 0x10u64 & 0x08u64 == 0 && 0x08u64 & 0x00ff_0000_0000_0000u64 == 0 && 0x00ff_0000_0000_0000u64 & 0x08u64 == 0 && 0x08u64 & 0x4200_0000_0000_0000u64 == 0 && 0x4200_0000_0000_0000u64 & 0x08u64 == 0 && 0x08u64 & 0x2400_0000_0000_0000u64 == 0 && 0x2400_0000_0000_0000u64 & 0x08u64 == 0 && 0x08u64 & 0x8100_0000_0000_0000u64 == 0 && 0x8100_0000_0000_0000u64 & 0x08u64 == 0 && 0x08u64 & 0x0800_0000_0000_0000u64 == 0 && 0x0800_0000_0000_0000u64 & 0x08u64 == 0 && 0x08u64 & 0x1000_0000_0000_0000u64 == 0 && 0x1000_0000_0000_0000u64 & 0x08u64 == 0 && 0x10u64 & 0x00ff_0000_0000_0000u64 == 0 && 0x00ff_0000_0000_0000u64 & 0x10u64 == 0 && 0x10u64 & 0x4200_0000_0000_0000u64 == 0 && 0x4200_0000_0000_0000u64 & 0x10u64 == 0 && 0x10u64 & 0x2400_0000_0000_0000u64 == 0 && 0x2400_0000_0000_0000u64 & 0x10u64 == 0 && 0x10u64 & 0x8100_0000_0000_0000u64 == 0 && 0x8100_0000_0000_0000u64 & 0x10u64 == 0 && 0x10u64 & 0x0800_0000_0000_0000u64 == 0 && 0x0800_0000_0000_0000u64 & 0x10u64 == 0 && 0x10u64 & 0x1000_0000_0000_0000u64 == 0 && 0x1000_0000_0000_0000u64 & 0x10u64 == 0 && 0x00ff_0000_0000_0000u64 & 0x4200_0000_0000_0000u64 == 0 && 0x4200_0000_0000_0000u64 & 0x00ff_0000_0000_0000u64 == 0 && 0x00ff_0000_0000_0000u64 & 0x2400_0000_0000_0000u64 == 0 && 0x2400_0000_0000_0000u64 & 0x00ff_0000_0000_0000u64 == 0 && 0x00ff_0000_0000_0000u64 & 0x8100_0000_0000_0000u64 == 0 && 0x8100_0000_0000_0000u64 & 0x00ff_0000_0000_0000u64 == 0 && 0x00ff_0000_0000_0000u64 & 0x0800_0000_0000_0000u64 == 0 && 0x0800_0000_0000_0000u64 & 0x00ff_0000_0000_0000u64 == 0 && 0x00ff_0000_0000_0000u64 & 0x1000_0000_0000_0000u64 == 0 && 0x1000_0000_0000_0000u64 & 0x00ff_0000_0000_0000u64 == 0 && 0x4200_0000_0000_0000u64 & 0x2400_0000_0000_0000u64 == 0 && 0x2400_0000_0000_0000u64 & 0x4200_0000_0000_0000u64 == 0 && 0x4200_0000_0000_0000u64 & 0x8100_0000_0000_0000u64 == 0 && 0x8100_0000_0000_0000u64 & 0x4200_0000_0000_0000u64 == 0 && 0x4200_0000_0000_0000u64 & 0x0800_0000_0000_0000u64 == 0 && 0x0800_0000_0000_0000u64 & 0x4200_0000_0000_0000u64 == 0 && 0x4200_0000_0000_0000u64 & 0x1000_0000_0000_0000u64 == 0 && 0x1000_0000_0000_0000u64 & 0x4200_0000_0000_0000u64 == 0 && 0x2400_0000_0000_0000u64 & 0x8100_0000_0000_0000u64 == 0 && 0x8100_0000_0000_0000u64 & 0x2400_0000_0000_0000u64 == 0 && 0x2400_0000_0000_0000u64 & 0x0800_0000_0000_0000u64 == 0 && 0x0800_0000_0000_0000u64 & 0x2400_0000_0000_0000u64 == 0 && 0x2400_0000_0000_0000u64 & 0x1000_0000_0000_0000u64 == 0 && 0x1000_0000_0000_0000u64 & 0x2400_0000_0000_0000u64 == 0 && 0x8100_0000_0000_0000u64 & 0x0800_0000_0000_0000u64 == 0 && 0x0800_0000_0000_0000u64 & 0x8100_0000_0000_0000u64 == 0 && 0x8100_0000_0000_0000u64 & 0x1000_0000_0000_0000u64 == 0 && 0x1000_0000_0000_0000u64 & 0x8100_0000_0000_0000u64 == 0 && 0x0800_0000_0000_0000u64 & 0x1000_0000_0000_0000u64 == 0 && 0x1000_0000_0000_0000u64 & 0x0800_0000_0000_0000u64 == 0) by (bit_vector);
    }
    starting_position
}

} // verus!
