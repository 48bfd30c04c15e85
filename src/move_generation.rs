use vstd::prelude::*;

use crate::pieces::{Class, Colour};
use crate::position::{
    lemma_board_masks, lemma_piece_at_square, Position, FILES_AB, FILES_GH, FILE_A, FILE_H, RANK_1,
    RANK_2, RANK_7, RANK_8,
};
use crate::utils::{
    lemma_bit_ops, lemma_shift_left_bits, lemma_shift_right_bits, lemma_square_mask_and,
    lemma_square_mask_bit, lemma_square_mask_shift, occupies, square_mask,
};

verus! {

/// The eight directions in which a piece may step or slide.
#[derive(Clone, Copy, Debug, PartialEq, Eq, Structural)]
pub enum Direction {
    North,
    East,
    South,
    West,
    NorthEast,
    SouthEast,
    SouthWest,
    NorthWest,
}

/// The eight jumps of a knight: two squares one way and one square the other.
#[derive(Clone, Copy, Debug, PartialEq, Eq, Structural)]
pub enum KnightDirection {
    NorthNorthEast,
    EastNorthEast,
    EastSouthEast,
    SouthSouthEast,
    SouthSouthWest,
    WestSouthWest,
    WestNorthWest,
    NorthNorthWest,
}

/// The file (0 for a to 7 for h) of square `i`.
pub open spec fn file_of(i: int) -> int {
    i % 8
}

/// The rank (0 for rank 1 to 7 for rank 8) of square `i`.
pub open spec fn rank_of(i: int) -> int {
    i / 8
}

/// Whether a file and a rank lie on the board.
pub open spec fn in_bounds(file: int, rank: int) -> bool {
    0 <= file < 8 && 0 <= rank < 8
}

/// The index of the square at a file and a rank.
pub open spec fn square_at(file: int, rank: int) -> int {
    8 * rank + file
}

/// How many files one step in `d` moves (east is positive).
pub open spec fn file_step(d: Direction) -> int {
    match d {
        Direction::East | Direction::NorthEast | Direction::SouthEast => 1,
        Direction::West | Direction::NorthWest | Direction::SouthWest => -1,
        _ => 0,
    }
}

/// How many ranks one step in `d` moves (north is positive).
pub open spec fn rank_step(d: Direction) -> int {
    match d {
        Direction::North | Direction::NorthEast | Direction::NorthWest => 1,
        Direction::South | Direction::SouthEast | Direction::SouthWest => -1,
        _ => 0,
    }
}

/// The file and rank offsets of a knight's jump.
pub open spec fn knight_offset(d: KnightDirection) -> (int, int) {
    match d {
        KnightDirection::NorthNorthEast => (1, 2),
        KnightDirection::EastNorthEast => (2, 1),
        KnightDirection::EastSouthEast => (2, -1),
        KnightDirection::SouthSouthEast => (1, -2),
        KnightDirection::SouthSouthWest => (-1, -2),
        KnightDirection::WestSouthWest => (-2, -1),
        KnightDirection::WestNorthWest => (-2, 1),
        KnightDirection::NorthNorthWest => (-1, 2),
    }
}

/// The file reached after `k` steps from square `origin` in direction `d`.
#[verifier::opaque]
pub open spec fn ray_file(origin: int, d: Direction, k: int) -> int {
    file_of(origin) + k * file_step(d)
}

/// The rank reached after `k` steps from square `origin` in direction `d`.
#[verifier::opaque]
pub open spec fn ray_rank(origin: int, d: Direction, k: int) -> int {
    rank_of(origin) + k * rank_step(d)
}

/// Whether `k` steps from `origin` in direction `d` stay on the board.
pub open spec fn ray_on_board(origin: int, d: Direction, k: int) -> bool {
    in_bounds(ray_file(origin, d, k), ray_rank(origin, d, k))
}

/// The square reached after `k` steps from `origin` in direction `d`.
pub open spec fn ray_square(origin: int, d: Direction, k: int) -> int {
    square_at(ray_file(origin, d, k), ray_rank(origin, d, k))
}

/// Whether `square` is the mask of a single square of the board.
pub open spec fn is_square(square: u64) -> bool {
    exists|i: int| 0 <= i < 64 && square == square_mask(i)
}

/// The index of a single-square mask.
pub open spec fn square_index(square: u64) -> int {
    choose|i: int| 0 <= i < 64 && square == square_mask(i)
}

/// Whether a piece standing on `origin` may slide for colour `c`: the square
/// is empty or holds a piece of that colour.
pub open spec fn root_allows(pos: Position, origin: int, c: Colour) -> bool {
    match pos.spec_piece_at(square_mask(origin)) {
        Some(p) => p.spec_colour() == c,
        None => true,
    }
}

/// Whether a piece of colour `c` sliding from `origin` in direction `d`, for
/// at most `limit` steps, reaches square `j`: the origin holds no piece of
/// the other colour, `j` lies on the board `k` steps along the line, every
/// square before it is empty, and `j` holds no piece of colour `c` (a piece
/// of the other colour there is captured).
#[verifier::opaque]
pub open spec fn ray_contains(
    pos: Position,
    origin: int,
    d: Direction,
    limit: int,
    c: Colour,
    j: int,
) -> bool {
    &&& root_allows(pos, origin, c)
    &&& exists|k: int|
        #![trigger ray_square(origin, d, k)]
        1 <= k <= limit && ray_on_board(origin, d, k) && j == ray_square(origin, d, k) && (forall|
            m: int,
        |
            1 <= m < k ==> !occupies(pos.spec_occupancy(), #[trigger] ray_square(origin, d, m)))
            && !occupies(pos.spec_colour_occupancy(c), j)
}

/// Whether square `j` is reached by sliding in any of `dirs`.
pub open spec fn slide_reaches(
    pos: Position,
    origin: int,
    dirs: Seq<Direction>,
    limit: int,
    c: Colour,
    j: int,
) -> bool {
    exists|n: int| 0 <= n < dirs.len() && #[trigger] ray_contains(pos, origin, dirs[n], limit, c, j)
}

/// Whether a step in direction `d` from a square mask would leave the board,
/// read off the file and rank masks.
pub open spec fn spec_at_edge(d: Direction, square: u64) -> bool {
    let a = square & FILE_A != 0;
    let h = square & FILE_H != 0;
    let r1 = square & RANK_1 != 0;
    let r8 = square & RANK_8 != 0;
    match d {
        Direction::North => r8,
        Direction::East => h,
        Direction::South => r1,
        Direction::West => a,
        Direction::NorthEast => r8 || h,
        Direction::SouthEast => r1 || h,
        Direction::SouthWest => r1 || a,
        Direction::NorthWest => r8 || a,
    }
}

/// A mask shifted by one step in direction `d`.
pub open spec fn spec_step(d: Direction, square: u64) -> u64 {
    match d {
        Direction::North => square << 8u64,
        Direction::East => square << 1u64,
        Direction::South => square >> 8u64,
        Direction::West => square >> 1u64,
        Direction::NorthEast => square << 9u64,
        Direction::SouthEast => square >> 7u64,
        Direction::SouthWest => square >> 9u64,
        Direction::NorthWest => square << 7u64,
    }
}

/// Whether `square` holds a piece of `friendly_colour`.
pub fn check_if_square_obstructed(position: &Position, square: &u64, friendly_colour: &Colour) -> (r: bool)
    ensures
        r == (*square & position.spec_colour_occupancy(*friendly_colour) != 0),
{
    let occupancy = position.get_colour_occupancy(friendly_colour);
    *square & occupancy != 0
}

/// Whether one more step in `direction` from `square` would leave the board.
pub fn is_at_edge_in_direction(direction: &Direction, square: &u64) -> (r: bool)
    ensures
        r == spec_at_edge(*direction, *square),
        forall|i: int|
            0 <= i < 64 && *square == square_mask(i) ==> (r <==> !in_bounds(
                file_of(i) + file_step(*direction),
                rank_of(i) + rank_step(*direction),
            )),
{
    let is_on_file_a = *square & FILE_A != 0;
    let is_on_file_h = *square & FILE_H != 0;
    let is_on_rank_1 = *square & RANK_1 != 0;
    let is_on_rank_8 = *square & RANK_8 != 0;
    proof {
        assert forall|i: int| 0 <= i < 64 && *square == square_mask(i) implies (spec_at_edge(
            *direction,
            *square,
        ) <==> !in_bounds(file_of(i) + file_step(*direction), rank_of(i) + rank_step(*direction))) by {
            lemma_square_mask_and(i as u64, FILE_A);
            lemma_square_mask_and(i as u64, FILE_H);
            lemma_square_mask_and(i as u64, RANK_1);
            lemma_square_mask_and(i as u64, RANK_8);
            lemma_board_masks(i as u64);
        }
    }
    match direction {
        Direction::North => is_on_rank_8,
        Direction::East => is_on_file_h,
        Direction::South => is_on_rank_1,
        Direction::West => is_on_file_a,
        Direction::NorthEast => is_on_rank_8 || is_on_file_h,
        Direction::SouthEast => is_on_rank_1 || is_on_file_h,
        Direction::SouthWest => is_on_rank_1 || is_on_file_a,
        Direction::NorthWest => is_on_rank_8 || is_on_file_a,
    }
}

/// The mask `square` moved one step in `direction`. On a single square that
/// is not at the edge in that direction, this is the neighbouring square.
pub fn step_in_direction(direction: &Direction, square: &u64) -> (r: u64)
    ensures
        r == spec_step(*direction, *square),
        forall|i: int|
            0 <= i < 64 && *square == square_mask(i) && in_bounds(
                file_of(i) + file_step(*direction),
                rank_of(i) + rank_step(*direction),
            ) ==> r == square_mask(
                square_at(
                    file_of(i) + file_step(*direction),
                    rank_of(i) + rank_step(*direction),
                ),
            ),
{
    let mask = *square;
    proof {
        assert forall|i: int|
            0 <= i < 64 && *square == square_mask(i) && in_bounds(
                file_of(i) + file_step(*direction),
                rank_of(i) + rank_step(*direction),
            ) implies spec_step(*direction, *square) == square_mask(
            square_at(file_of(i) + file_step(*direction), rank_of(i) + rank_step(*direction)),
        ) by {
            lemma_square_mask_shift(i as u64, 1);
            lemma_square_mask_shift(i as u64, 7);
            lemma_square_mask_shift(i as u64, 8);
            lemma_square_mask_shift(i as u64, 9);
        }
    }
    match direction {
        Direction::North => mask << 8u64,
        Direction::East => mask << 1u64,
        Direction::South => mask >> 8u64,
        Direction::West => mask >> 1u64,
        Direction::NorthEast => mask << 9u64,
        Direction::SouthEast => mask >> 7u64,
        Direction::SouthWest => mask >> 9u64,
        Direction::NorthWest => mask << 7u64,
    }
}

/// One more step along a ray moves by the direction's offsets; no step at all
/// stays on the origin.
pub proof fn lemma_ray_next(origin: int, d: Direction, t: int)
    requires
        0 <= origin < 64,
    ensures
        ray_file(origin, d, t + 1) == ray_file(origin, d, t) + file_step(d),
        ray_rank(origin, d, t + 1) == ray_rank(origin, d, t) + rank_step(d),
        ray_square(origin, d, 0) == origin,
        ray_on_board(origin, d, 0),
{
    reveal(ray_file);
    reveal(ray_rank);
    let df = file_step(d);
    let dr = rank_step(d);
    assert((t + 1) * df == t * df + df) by (nonlinear_arith);
    assert((t + 1) * dr == t * dr + dr) by (nonlinear_arith);
}

/// A ray that is on the board after `k` steps was on the board at every
/// step before, and never takes more than seven steps.
pub proof fn lemma_ray_on_board(origin: int, d: Direction, t: int, k: int)
    requires
        0 <= origin < 64,
        0 <= t <= k,
        ray_on_board(origin, d, k),
    ensures
        ray_on_board(origin, d, t),
        k <= 7,
        k >= 1 ==> ray_square(origin, d, k) != origin,
        0 <= ray_square(origin, d, k) < 64,
{
    reveal(ray_file);
    reveal(ray_rank);
    let f = file_of(origin);
    let r = rank_of(origin);
    let df = file_step(d);
    let dr = rank_step(d);
    assert(0 <= f + t * df < 8 && 0 <= r + t * dr < 8 && k <= 7) by (nonlinear_arith)
        requires
            0 <= f < 8,
            0 <= r < 8,
            -1 <= df <= 1,
            -1 <= dr <= 1,
            df != 0 || dr != 0,
            0 <= t <= k,
            0 <= f + k * df < 8,
            0 <= r + k * dr < 8,
    ;
    if k >= 1 {
        assert(k * df != 0 || k * dr != 0) by (nonlinear_arith)
            requires
                k >= 1,
                df != 0 || dr != 0,
        ;
    }
}

/// The squares reached by sliding from `root_square` in `direction`, for at
/// most `travel_limit` steps, as a mask.
fn cast_ray(
    direction: &Direction,
    travel_limit: u8,
    position: &Position,
    root_square: &u64,
    friendly_colour: &Colour,
) -> (ray: u64)
    requires
        is_square(*root_square),
    ensures
        forall|j: int|
            0 <= j < 64 ==> (occupies(ray, j) <==> ray_contains(
                *position,
                square_index(*root_square),
                *direction,
                travel_limit as int,
                *friendly_colour,
                j,
            )),
{
    let ghost o = square_index(*root_square);
    let ghost d = *direction;
    let ghost c = *friendly_colour;
    let ghost pos = *position;
    let ghost occ = position.spec_occupancy();
    let ghost friendly = position.spec_colour_occupancy(c);
    proof {
        lemma_ray_next(o, d, 0);
    }
    let mut ray: u64 = 0;
    let mut current_square = *root_square;
    let mut travel_distance: u8 = 0;
    let mut was_previous_capture = false;
    let mut was_previous_edge = false;
    assert forall|j: int| 0 <= j < 64 implies !occupies(0u64, j) by {
        lemma_bit_ops(0, 0, j as u64);
    }
    while !was_previous_capture && !was_previous_edge && travel_distance <= travel_limit && (
    travel_distance == 0 || !check_if_square_obstructed(position, &current_square, friendly_colour))
        invariant
            0 <= o < 64,
            *root_square == square_mask(o),
            d == *direction,
            c == *friendly_colour,
            pos == *position,
            occ == position.spec_occupancy(),
            friendly == position.spec_colour_occupancy(c),
            travel_distance <= 8,
            travel_distance as int <= travel_limit as int + 1,
            !was_previous_edge ==> ray_on_board(o, d, travel_distance as int) && current_square
                == square_mask(ray_square(o, d, travel_distance as int)),
            was_previous_edge ==> travel_distance >= 1 && !ray_on_board(
                o,
                d,
                travel_distance as int,
            ),
            was_previous_capture ==> (travel_distance == 1 && !root_allows(pos, o, c)) || (
            travel_distance >= 2 && occupies(occ, ray_square(o, d, travel_distance - 1))),
            travel_distance >= 2 || (travel_distance == 1 && !was_previous_capture) ==> root_allows(
                pos,
                o,
                c,
            ),
            forall|m: int|
                1 <= m && m + 1 < travel_distance ==> !occupies(
                    occ,
                    #[trigger] ray_square(o, d, m),
                ),
            !was_previous_capture ==> forall|m: int|
                1 <= m < travel_distance ==> !occupies(occ, #[trigger] ray_square(o, d, m)),
            forall|k: int| 1 <= k < travel_distance ==> #[trigger] ray_on_board(o, d, k),
            forall|k: int|
                1 <= k < travel_distance ==> !occupies(friendly, #[trigger] ray_square(o, d, k)),
            forall|j: int|
                0 <= j < 64 ==> (occupies(ray, j) <==> exists|k: int|
                    1 <= k < travel_distance && j == #[trigger] ray_square(o, d, k)),
        decreases 8 - travel_distance,
    {
        let ghost t = travel_distance as int;
        let ghost sq = ray_square(o, d, t);
        proof {
            lemma_ray_on_board(o, d, t, t);
            lemma_ray_next(o, d, t);
            lemma_piece_at_square(pos, sq);
            lemma_square_mask_and(sq as u64, friendly);
            if t >= 1 {
                assert(!occupies(friendly, sq));
            }
        }
        let ghost before = ray;
        if current_square != *root_square {
            ray = ray | current_square;
        }
        proof {
            if t >= 1 {
                lemma_square_mask_bit(sq as u64, o as u64);
                lemma_square_mask_bit(o as u64, o as u64);
                assert(current_square != *root_square);
                assert forall|j: int| 0 <= j < 64 implies (occupies(ray, j) <==> (occupies(before, j) || j == sq)) by {
                    lemma_bit_ops(before, current_square, j as u64);
                    lemma_square_mask_bit(sq as u64, j as u64);
                }
            } else {
                assert(current_square == *root_square);
            }
            assert forall|j: int| 0 <= j < 64 implies (occupies(ray, j) <==> exists|k: int|
                    1 <= k < t + 1 && j == #[trigger] ray_square(o, d, k)) by {
                if occupies(ray, j) && !occupies(before, j) {
                    assert(j == ray_square(o, d, t));
                }
            }
        }
        if let Some(target_piece) = position.get_piece_at(&current_square) {
            was_previous_capture = *friendly_colour != target_piece.colour();
        }
        was_previous_edge = is_at_edge_in_direction(direction, &current_square);
        current_square = step_in_direction(direction, &current_square);
        travel_distance += 1;
        proof {
            if !was_previous_edge {
                assert(ray_on_board(o, d, t + 1));
            }
            assert forall|k: int| 1 <= k < t + 1 implies #[trigger] ray_on_board(o, d, k) by {
                if k == t {
                    assert(ray_on_board(o, d, t));
                }
            }
            assert forall|k: int| 1 <= k < t + 1 implies !occupies(
                friendly,
                #[trigger] ray_square(o, d, k),
            ) by {
                if k == t {
                    assert(!occupies(friendly, sq));
                }
            }
        }
    }
    proof {
        reveal(ray_contains);
        let t = travel_distance as int;
        let limit = travel_limit as int;
        assert forall|j: int| 0 <= j < 64 implies (occupies(ray, j) <==> ray_contains(pos, o, d, limit, c, j)) by {
            if occupies(ray, j) {
                let k = choose|k: int| 1 <= k < t && j == #[trigger] ray_square(o, d, k);
                assert(forall|m: int| 1 <= m < k ==> !occupies(occ, #[trigger] ray_square(o, d, m)));
                assert(ray_on_board(o, d, k));
            }
            if ray_contains(pos, o, d, limit, c, j) {
                let k = choose|k: int|
                    #![trigger ray_square(o, d, k)]
                    1 <= k <= limit && ray_on_board(o, d, k) && j == ray_square(o, d, k) && (forall|m: int|
                        1 <= m < k ==> !occupies(occ, #[trigger] ray_square(o, d, m)))
                        && !occupies(friendly, j);
                if k >= t {
                    if was_previous_edge {
                        lemma_ray_on_board(o, d, t, k);
                    } else if was_previous_capture {
                        if t >= 2 {
                            assert(!occupies(occ, ray_square(o, d, t - 1)));
                        }
                    } else if t <= limit {
                        lemma_ray_on_board(o, d, t, t);
                        lemma_square_mask_and(ray_square(o, d, t) as u64, friendly);
                        lemma_piece_at_square(pos, ray_square(o, d, t));
                        if k > t {
                            assert(!occupies(occ, ray_square(o, d, t)));
                        }
                    }
                }
                assert(k < t);
            }
        }
    }
    ray
}

/// Adds to `moves` every square that a piece of `friendly_colour` on
/// `root_square` reaches by sliding in one of `directions`, at most
/// `travel_limit` steps: a ray stops before a piece of its own colour, on a
/// piece of the other colour, and at the edge of the board.
pub fn generate_sliding_moves(
    moves: &mut u64,
    directions: Vec<Direction>,
    travel_limit: u8,
    position: &Position,
    root_square: &u64,
    friendly_colour: &Colour,
)
    requires
        is_square(*root_square),
    ensures
        forall|j: int|
            0 <= j < 64 ==> (occupies(*final(moves), j) <==> (occupies(*old(moves), j) || slide_reaches(
                *position,
                square_index(*root_square),
                directions@,
                travel_limit as int,
                *friendly_colour,
                j,
            ))),
{
    let ghost o = square_index(*root_square);
    let ghost start = *moves;
    let mut n: usize = 0;
    while n < directions.len()
        invariant
            n <= directions.len(),
            is_square(*root_square),
            o == square_index(*root_square),
            forall|j: int|
                0 <= j < 64 ==> (#[trigger] occupies(*moves, j) <==> (occupies(start, j) || exists|e: int|
                    0 <= e < n && #[trigger] ray_contains(
                        *position,
                        o,
                        directions@[e],
                        travel_limit as int,
                        *friendly_colour,
                        j,
                    ))),
        decreases directions.len() - n,
    {
        let ray = cast_ray(&directions[n], travel_limit, position, root_square, friendly_colour);
        let ghost before = *moves;
        *moves = *moves | ray;
        proof {
            assert forall|j: int| 0 <= j < 64 implies (#[trigger] occupies(*moves, j) <==> (occupies(start, j)
                || exists|e: int|
                0 <= e < n + 1 && #[trigger] ray_contains(
                    *position,
                    o,
                    directions@[e],
                    travel_limit as int,
                    *friendly_colour,
                    j,
                ))) by {
                lemma_bit_ops(before, ray, j as u64);
                let here = ray_contains(
                    *position,
                    o,
                    directions@[n as int],
                    travel_limit as int,
                    *friendly_colour,
                    j,
                );
                assert(occupies(ray, j) <==> here);
                if occupies(*moves, j) {
                    if occupies(before, j) {
                        if !occupies(start, j) {
                            let e = choose|e: int|
                                0 <= e < n && #[trigger] ray_contains(
                                    *position,
                                    o,
                                    directions@[e],
                                    travel_limit as int,
                                    *friendly_colour,
                                    j,
                                );
                            assert(0 <= e < n + 1);
                        }
                    } else {
                        assert(here);
                        assert(0 <= n < n + 1);
                    }
                }
                if exists|e: int|
                    0 <= e < n + 1 && #[trigger] ray_contains(
                        *position,
                        o,
                        directions@[e],
                        travel_limit as int,
                        *friendly_colour,
                        j,
                    ) {
                    let e = choose|e: int|
                        0 <= e < n + 1 && #[trigger] ray_contains(
                            *position,
                            o,
                            directions@[e],
                            travel_limit as int,
                            *friendly_colour,
                            j,
                        );
                    if e < n {
                        assert(occupies(start, j) || exists|e: int|
                            0 <= e < n && #[trigger] ray_contains(
                                *position,
                                o,
                                directions@[e],
                                travel_limit as int,
                                *friendly_colour,
                                j,
                            ));
                        assert(occupies(before, j));
                    }
                }
            }
        }
        n += 1;
    }
}

/// Whether a pawn of colour `c` on square `i` attacks square `j`: one rank
/// forward for its colour and one file to either side.
pub open spec fn pawn_attacks_square(c: Colour, i: int, j: int) -> bool {
    &&& rank_of(j) == rank_of(i) + pawn_forward(c)
    &&& (file_of(j) == file_of(i) + 1 || file_of(j) == file_of(i) - 1)
}

/// The direction of a pawn's advance: up the board for white, down for black.
pub open spec fn pawn_forward(c: Colour) -> int {
    match c {
        Colour::White => 1,
        Colour::Black => -1,
    }
}

/// The colour that `generate_pawn_attacks` takes the pawns of `pawns` to have:
/// white when any of them stands on a white piece's square.
pub open spec fn pawns_colour(pos: Position, pawns: u64) -> Colour {
    if pawns & pos.spec_colour_occupancy(Colour::White) != 0 {
        Colour::White
    } else {
        Colour::Black
    }
}

/// The squares that the pawns of `pawns` attack, diagonally forward, whether
/// or not anything stands there. The pawns are taken to be white if any of
/// them stands on a white piece's square, black otherwise.
pub fn generate_pawn_attacks(position: &Position, pawns: &u64) -> (r: u64)
    ensures
        forall|j: int|
            0 <= j < 64 ==> (occupies(r, j) <==> exists|i: int|
                0 <= i < 64 && #[trigger] occupies(*pawns, i) && pawn_attacks_square(
                    pawns_colour(*position, *pawns),
                    i,
                    j,
                )),
{
    let pawn_is_white = *pawns & position.get_colour_occupancy(&Colour::White) != 0;
    let friendly_colour = if pawn_is_white {
        Colour::White
    } else {
        Colour::Black
    };
    let east_attacks = match friendly_colour {
        Colour::White => (*pawns & !FILE_H) << 9u64,
        Colour::Black => (*pawns & !FILE_H) >> 7u64,
    };
    let west_attacks = match friendly_colour {
        Colour::White => (*pawns & !FILE_A) << 7u64,
        Colour::Black => (*pawns & !FILE_A) >> 9u64,
    };
    let attacks = east_attacks | west_attacks;
    proof {
        let c = friendly_colour;
        assert forall|j: int| 0 <= j < 64 implies (occupies(attacks, j) <==> exists|i: int|
            0 <= i < 64 && #[trigger] occupies(*pawns, i) && pawn_attacks_square(c, i, j)) by {
            let ju = j as u64;
            lemma_bit_ops(east_attacks, west_attacks, ju);
            lemma_shift_left_bits(*pawns, FILE_H, 9, ju);
            lemma_shift_left_bits(*pawns, FILE_A, 7, ju);
            lemma_shift_right_bits(*pawns, FILE_H, 7, ju);
            lemma_shift_right_bits(*pawns, FILE_A, 9, ju);
            if j >= 9 {
                lemma_board_masks((j - 9) as u64);
            }
            if j >= 7 {
                lemma_board_masks((j - 7) as u64);
            }
            if j + 7 < 64 {
                lemma_board_masks((j + 7) as u64);
            }
            if j + 9 < 64 {
                lemma_board_masks((j + 9) as u64);
            }
            if occupies(attacks, j) {
                if c == Colour::White {
                    if occupies(east_attacks, j) {
                        assert(pawn_attacks_square(c, j - 9, j));
                        assert(occupies(*pawns, j - 9));
                    } else {
                        assert(pawn_attacks_square(c, j - 7, j));
                        assert(occupies(*pawns, j - 7));
                    }
                } else {
                    if occupies(east_attacks, j) {
                        assert(pawn_attacks_square(c, j + 7, j));
                        assert(occupies(*pawns, j + 7));
                    } else {
                        assert(pawn_attacks_square(c, j + 9, j));
                        assert(occupies(*pawns, j + 9));
                    }
                }
            }
            if exists|i: int| 0 <= i < 64 && #[trigger] occupies(*pawns, i) && pawn_attacks_square(c, i, j) {
                let i = choose|i: int| 0 <= i < 64 && #[trigger] occupies(*pawns, i) && pawn_attacks_square(c, i, j);
                lemma_board_masks(i as u64);
                if c == Colour::White {
                    if file_of(j) == file_of(i) + 1 {
                        assert(j == i + 9);
                    } else {
                        assert(j == i + 7);
                    }
                } else {
                    if file_of(j) == file_of(i) + 1 {
                        assert(j == i - 7);
                    } else {
                        assert(j == i - 9);
                    }
                }
            }
        }
    }
    attacks
}

/// The squares that a knight's eight jumps from the squares of `square`
/// reach, each jump guarded by the files from which it would wrap round.
pub open spec fn knight_jumps(square: u64) -> u64 {
    ((square & !FILE_H) << 17u64) | ((square & !FILES_GH) << 10u64) | ((square & !FILES_GH)
        >> 6u64) | ((square & !FILE_H) >> 15u64) | ((square & !FILE_A) << 15u64) | ((square
        & !FILES_AB) << 6u64) | ((square & !FILES_AB) >> 10u64) | ((square & !FILE_A) >> 17u64)
}

/// Whether a knight's jump in direction `kd` from square `origin` lands on
/// the board, on square `j`.
pub open spec fn knight_lands(origin: int, kd: KnightDirection, j: int) -> bool {
    let f = file_of(origin) + knight_offset(kd).0;
    let r = rank_of(origin) + knight_offset(kd).1;
    in_bounds(f, r) && j == square_at(f, r)
}

/// The knight's jumps from a single square are exactly the jumps that land
/// on the board.
pub proof fn lemma_knight_jumps(o: int, j: int)
    requires
        0 <= o < 64,
        0 <= j < 64,
    ensures
        occupies(knight_jumps(square_mask(o)), j) <==> exists|kd: KnightDirection|
            #[trigger] knight_lands(o, kd, j),
{
    let x = square_mask(o);
    let ju = j as u64;
    let t1 = (x & !FILE_H) << 17u64;
    let t2 = (x & !FILES_GH) << 10u64;
    let t3 = (x & !FILES_GH) >> 6u64;
    let t4 = (x & !FILE_H) >> 15u64;
    let t5 = (x & !FILE_A) << 15u64;
    let t6 = (x & !FILES_AB) << 6u64;
    let t7 = (x & !FILES_AB) >> 10u64;
    let t8 = (x & !FILE_A) >> 17u64;
    lemma_bit_ops(t1, t2, ju);
    lemma_bit_ops(t1 | t2, t3, ju);
    lemma_bit_ops(t1 | t2 | t3, t4, ju);
    lemma_bit_ops(t1 | t2 | t3 | t4, t5, ju);
    lemma_bit_ops(t1 | t2 | t3 | t4 | t5, t6, ju);
    lemma_bit_ops(t1 | t2 | t3 | t4 | t5 | t6, t7, ju);
    lemma_bit_ops(t1 | t2 | t3 | t4 | t5 | t6 | t7, t8, ju);
    lemma_shift_left_bits(x, FILE_H, 17, ju);
    lemma_shift_left_bits(x, FILES_GH, 10, ju);
    lemma_shift_right_bits(x, FILES_GH, 6, ju);
    lemma_shift_right_bits(x, FILE_H, 15, ju);
    lemma_shift_left_bits(x, FILE_A, 15, ju);
    lemma_shift_left_bits(x, FILES_AB, 6, ju);
    lemma_shift_right_bits(x, FILES_AB, 10, ju);
    lemma_shift_right_bits(x, FILE_A, 17, ju);
    lemma_board_masks(o as u64);
    let ou = o as u64;
    if ju >= 17 {
        lemma_square_mask_bit(ou, (ju - 17) as u64);
    }
    if ju >= 15 {
        lemma_square_mask_bit(ou, (ju - 15) as u64);
    }
    if ju >= 10 {
        lemma_square_mask_bit(ou, (ju - 10) as u64);
    }
    if ju >= 6 {
        lemma_square_mask_bit(ou, (ju - 6) as u64);
    }
    if ju + 17 < 64 {
        lemma_square_mask_bit(ou, (ju + 17) as u64);
    }
    if ju + 15 < 64 {
        lemma_square_mask_bit(ou, (ju + 15) as u64);
    }
    if ju + 10 < 64 {
        lemma_square_mask_bit(ou, (ju + 10) as u64);
    }
    if ju + 6 < 64 {
        lemma_square_mask_bit(ou, (ju + 6) as u64);
    }
    if occupies(knight_jumps(x), j) {
        if occupies(t1, j) {
            assert(knight_lands(o, KnightDirection::NorthNorthEast, j));
        } else if occupies(t2, j) {
            assert(knight_lands(o, KnightDirection::EastNorthEast, j));
        } else if occupies(t3, j) {
            assert(knight_lands(o, KnightDirection::EastSouthEast, j));
        } else if occupies(t4, j) {
            assert(knight_lands(o, KnightDirection::SouthSouthEast, j));
        } else if occupies(t5, j) {
            assert(knight_lands(o, KnightDirection::NorthNorthWest, j));
        } else if occupies(t6, j) {
            assert(knight_lands(o, KnightDirection::WestNorthWest, j));
        } else if occupies(t7, j) {
            assert(knight_lands(o, KnightDirection::WestSouthWest, j));
        } else {
            assert(knight_lands(o, KnightDirection::SouthSouthWest, j));
        }
    }
    if exists|kd: KnightDirection| #[trigger] knight_lands(o, kd, j) {
        let kd = choose|kd: KnightDirection| #[trigger] knight_lands(o, kd, j);
        match kd {
            KnightDirection::NorthNorthEast => assert(occupies(t1, j)),
            KnightDirection::EastNorthEast => assert(occupies(t2, j)),
            KnightDirection::EastSouthEast => assert(occupies(t3, j)),
            KnightDirection::SouthSouthEast => assert(occupies(t4, j)),
            KnightDirection::NorthNorthWest => assert(occupies(t5, j)),
            KnightDirection::WestNorthWest => assert(occupies(t6, j)),
            KnightDirection::WestSouthWest => assert(occupies(t7, j)),
            KnightDirection::SouthSouthWest => assert(occupies(t8, j)),
        }
    }
}

/// The rank from which a pawn of colour `c` may advance two squares.
pub open spec fn pawn_home_rank(c: Colour) -> int {
    match c {
        Colour::White => 1,
        Colour::Black => 6,
    }
}

/// A mask moved one rank forward for colour `c`.
pub open spec fn forward_shift(c: Colour, x: u64) -> u64 {
    match c {
        Colour::White => x << 8u64,
        Colour::Black => x >> 8u64,
    }
}

/// Moving a single square one rank forward and keeping it only where the
/// board is empty gives the square in front, if it is on the board and empty;
/// doing it twice gives the square two ahead, if both are empty.
pub proof fn lemma_pawn_push_bits(o: int, c: Colour, occ: u64, j: int)
    requires
        0 <= o < 64,
        0 <= j < 64,
    ensures
        ({
            let f = file_of(o);
            let r = rank_of(o);
            let fwd = pawn_forward(c);
            let first = forward_shift(c, square_mask(o)) & !occ;
            &&& occupies(first, j) <==> (in_bounds(f, r + fwd) && j == square_at(f, r + fwd)
                && !occupies(occ, j))
            &&& occupies(forward_shift(c, first) & !occ, j) <==> (in_bounds(f, r + 2 * fwd) && j
                == square_at(f, r + 2 * fwd) && !occupies(occ, square_at(f, r + fwd)) && !occupies(
                occ,
                j,
            ))
        }),
{
    let x = square_mask(o);
    let first = forward_shift(c, x) & !occ;
    let ju = j as u64;
    let ou = o as u64;
    lemma_bit_ops(forward_shift(c, x), !occ, ju);
    lemma_bit_ops(forward_shift(c, first), !occ, ju);
    lemma_bit_ops(occ, occ, ju);
    lemma_shift_left_bits(x, 0, 8, ju);
    lemma_shift_right_bits(x, 0, 8, ju);
    lemma_shift_left_bits(first, 0, 8, ju);
    lemma_shift_right_bits(first, 0, 8, ju);
    if ju >= 8 {
        let k = (ju - 8) as u64;
        lemma_square_mask_bit(ou, k);
        lemma_bit_ops(forward_shift(c, x), !occ, k);
        lemma_bit_ops(occ, occ, k);
        lemma_shift_left_bits(x, 0, 8, k);
        lemma_shift_right_bits(x, 0, 8, k);
        if k >= 8 {
            lemma_square_mask_bit(ou, (k - 8) as u64);
        }
        if k + 8 < 64 {
            lemma_square_mask_bit(ou, (k + 8) as u64);
        }
    }
    if ju + 8 < 64 {
        let k = (ju + 8) as u64;
        lemma_square_mask_bit(ou, k);
        lemma_bit_ops(forward_shift(c, x), !occ, k);
        lemma_bit_ops(occ, occ, k);
        lemma_shift_left_bits(x, 0, 8, k);
        lemma_shift_right_bits(x, 0, 8, k);
        if k >= 8 {
            lemma_square_mask_bit(ou, (k - 8) as u64);
        }
        if k + 8 < 64 {
            lemma_square_mask_bit(ou, (k + 8) as u64);
        }
    }
}

/// The diagonal directions of a bishop.
pub open spec fn bishop_directions() -> Seq<Direction> {
    seq![Direction::NorthEast, Direction::SouthEast, Direction::SouthWest, Direction::NorthWest]
}

/// The straight directions of a rook.
pub open spec fn rook_directions() -> Seq<Direction> {
    seq![Direction::North, Direction::East, Direction::South, Direction::West]
}

/// All eight directions, those of a queen and of a king.
pub open spec fn all_directions() -> Seq<Direction> {
    seq![
        Direction::North,
        Direction::East,
        Direction::South,
        Direction::West,
        Direction::NorthEast,
        Direction::SouthEast,
        Direction::SouthWest,
        Direction::NorthWest,
    ]
}

/// Whether a pawn of colour `c` on `origin` may go to `j`: one square
/// forward onto an empty square; two squares forward from its home rank when
/// both squares are empty; or one square diagonally forward onto a piece of
/// the other colour.
pub open spec fn pawn_destination(pos: Position, origin: int, c: Colour, j: int) -> bool {
    let f = file_of(origin);
    let r = rank_of(origin);
    let fwd = pawn_forward(c);
    let occ = pos.spec_occupancy();
    ||| in_bounds(f, r + fwd) && j == square_at(f, r + fwd) && !occupies(occ, j)
    ||| r == pawn_home_rank(c) && j == square_at(f, r + 2 * fwd) && !occupies(
        occ,
        square_at(f, r + fwd),
    ) && !occupies(occ, j)
    ||| pawn_attacks_square(c, origin, j) && occupies(
        pos.spec_colour_occupancy(c.spec_opposite()),
        j,
    )
}

/// Whether a knight of colour `c` on `origin` may jump to `j`: one of its
/// eight jumps lands there, and no piece of its own colour stands there.
pub open spec fn knight_destination(pos: Position, origin: int, c: Colour, j: int) -> bool {
    &&& exists|kd: KnightDirection| #[trigger] knight_lands(origin, kd, j)
    &&& !occupies(pos.spec_colour_occupancy(c), j)
}

/// Whether the piece on `origin`, if any, may move to square `j`, by the
/// rules of its class. A king steps like a queen that slides one square.
pub open spec fn is_destination(pos: Position, origin: int, j: int) -> bool {
    match pos.spec_piece_at(square_mask(origin)) {
        None => false,
        Some(p) => {
            let c = p.spec_colour();
            match p.spec_class() {
                Class::Pawn => pawn_destination(pos, origin, c, j),
                Class::Knight => knight_destination(pos, origin, c, j),
                Class::Bishop => slide_reaches(pos, origin, bishop_directions(), 7, c, j),
                Class::Rook => slide_reaches(pos, origin, rook_directions(), 7, c, j),
                Class::Queen => slide_reaches(pos, origin, all_directions(), 7, c, j),
                Class::King => slide_reaches(pos, origin, all_directions(), 1, c, j),
            }
        }
    }
}

/// A square reached by sliding never holds a piece of the slider's colour.
pub proof fn lemma_slide_not_friendly(
    pos: Position,
    origin: int,
    dirs: Seq<Direction>,
    limit: int,
    c: Colour,
    j: int,
)
    requires
        slide_reaches(pos, origin, dirs, limit, c, j),
    ensures
        !occupies(pos.spec_colour_occupancy(c), j),
{
    let n = choose|n: int| 0 <= n < dirs.len() && #[trigger] ray_contains(pos, origin, dirs[n], limit, c, j);
    reveal(ray_contains);
}

/// The destination squares of the piece on `square`: pseudo-legal moves by
/// the rules of its class, with no regard to check. An empty square gives no
/// destinations.
pub fn generate_moves(position: &Position, square: &u64) -> (r: u64)
    requires
        is_square(*square),
    ensures
        forall|j: int|
            0 <= j < 64 ==> (occupies(r, j) <==> is_destination(
                *position,
                square_index(*square),
                j,
            )),
        position.spec_piece_at(*square) is None ==> r == 0,
{
    let ghost o = square_index(*square);
    let ghost pos = *position;
    let mut moves: u64 = 0;
    proof {
        assert forall|j: int| 0 <= j < 64 implies !occupies(0u64, j) by {
            lemma_bit_ops(0, 0, j as u64);
        }
    }
    if let Some(piece) = position.get_piece_at(square) {
        let ghost c = piece.spec_colour();
        proof {
            lemma_piece_at_square(pos, o);
            assert(0 <= o < 64 && *square == square_mask(o));
        }
        match piece.class() {
            Class::Pawn => {
                let mut first_push: u64 = match piece.colour() {
                    Colour::White => *square << 8u64,
                    Colour::Black => *square >> 8u64,
                };
                first_push = first_push & !position.get_occupancy();
                let pawn_on_home_row = match piece.colour() {
                    Colour::White => *square & RANK_2 != 0,
                    Colour::Black => *square & RANK_7 != 0,
                };
                let mut second_push: u64 = 0;
                if pawn_on_home_row {
                    second_push = match piece.colour() {
                        Colour::White => first_push << 8u64,
                        Colour::Black => first_push >> 8u64,
                    };
                    second_push = second_push & !position.get_occupancy();
                }
                moves = moves | first_push | second_push;
                let mut attacks = generate_pawn_attacks(position, square);
                let ghost raw_attacks = attacks;
                // only squares holding a piece that can be taken
                attacks = attacks & position.get_colour_occupancy(&piece.colour().opposite());
                let ghost pushes = moves;
                moves = moves | attacks;
                proof {
                    let occ = pos.spec_occupancy();
                    let opp = pos.spec_colour_occupancy(c.spec_opposite());
                    lemma_square_mask_and(o as u64, RANK_2);
                    lemma_square_mask_and(o as u64, RANK_7);
                    lemma_square_mask_and(o as u64, pos.spec_colour_occupancy(Colour::White));
                    lemma_board_masks(o as u64);
                    assert(pawns_colour(pos, *square) == c);
                    assert forall|j: int| 0 <= j < 64 implies (occupies(moves, j) <==> pawn_destination(pos, o, c, j)) by {
                        let ju = j as u64;
                        lemma_pawn_push_bits(o, c, occ, j);
                        lemma_bit_ops(0, first_push, ju);
                        lemma_bit_ops(first_push, second_push, ju);
                        lemma_bit_ops(0u64 | first_push, second_push, ju);
                        lemma_bit_ops(pushes, attacks, ju);
                        lemma_bit_ops(raw_attacks, opp, ju);
                        if exists|i: int| 0 <= i < 64 && #[trigger] occupies(*square, i) && pawn_attacks_square(c, i, j) {
                            let i = choose|i: int| 0 <= i < 64 && #[trigger] occupies(*square, i) && pawn_attacks_square(c, i, j);
                            lemma_square_mask_bit(o as u64, i as u64);
                        }
                        if pawn_attacks_square(c, o, j) {
                            lemma_square_mask_bit(o as u64, o as u64);
                            assert(occupies(*square, o));
                        }
                        assert(occupies(first_push, j) <==> (in_bounds(file_of(o), rank_of(o) + pawn_forward(c)) && j == square_at(file_of(o), rank_of(o) + pawn_forward(c)) && !occupies(occ, j)));
                        assert(occupies(raw_attacks, j) <==> pawn_attacks_square(c, o, j));
                        assert(occupies(attacks, j) <==> pawn_attacks_square(c, o, j) && occupies(opp, j));
                        assert(pawn_on_home_row <==> rank_of(o) == pawn_home_rank(c));
                        assert(occupies(second_push, j) <==> (rank_of(o) == pawn_home_rank(c) && j == square_at(file_of(o), rank_of(o) + 2 * pawn_forward(c)) && !occupies(occ, square_at(file_of(o), rank_of(o) + pawn_forward(c))) && !occupies(occ, j)));
                    }
                }
            },
            Class::Knight => {
                moves = ((*square & !FILE_H) << 17u64) | ((*square & !FILES_GH) << 10u64) | ((
                *square & !FILES_GH) >> 6u64) | ((*square & !FILE_H) >> 15u64) | ((*square
                    & !FILE_A) << 15u64) | ((*square & !FILES_AB) << 6u64) | ((*square
                    & !FILES_AB) >> 10u64) | ((*square & !FILE_A) >> 17u64);
                let occupied_squares = position.get_colour_occupancy(&piece.colour());
                let ghost jumps = moves;
                moves = moves & !occupied_squares;
                proof {
                    assert(jumps == knight_jumps(*square));
                    assert forall|j: int| 0 <= j < 64 implies (occupies(moves, j) <==> knight_destination(pos, o, c, j)) by {
                        lemma_knight_jumps(o, j);
                        lemma_bit_ops(jumps, !occupied_squares, j as u64);
                        lemma_bit_ops(occupied_squares, occupied_squares, j as u64);
                    }
                }
            },
            Class::Bishop => {
                let directions = vec![
                    Direction::NorthEast,
                    Direction::SouthEast,
                    Direction::SouthWest,
                    Direction::NorthWest,
                ];
                proof {
                    assert(directions@ =~= bishop_directions());
                }
                generate_sliding_moves(&mut moves, directions, 7, position, square, &piece.colour());
            },
            Class::Rook => {
                let directions = vec![
                    Direction::North,
                    Direction::East,
                    Direction::South,
                    Direction::West,
                ];
                proof {
                    assert(directions@ =~= rook_directions());
                }
                generate_sliding_moves(&mut moves, directions, 7, position, square, &piece.colour());
            },
            Class::Queen => {
                let directions = vec![
                    Direction::North,
                    Direction::East,
                    Direction::South,
                    Direction::West,
                    Direction::NorthEast,
                    Direction::SouthEast,
                    Direction::SouthWest,
                    Direction::NorthWest,
                ];
                proof {
                    assert(directions@ =~= all_directions());
                }
                generate_sliding_moves(&mut moves, directions, 7, position, square, &piece.colour());
            },
            Class::King => {
                let directions = vec![
                    Direction::North,
                    Direction::East,
                    Direction::South,
                    Direction::West,
                    Direction::NorthEast,
                    Direction::SouthEast,
                    Direction::SouthWest,
                    Direction::NorthWest,
                ];
                proof {
                    assert(directions@ =~= all_directions());
                }
                generate_sliding_moves(&mut moves, directions, 1, position, square, &piece.colour());
                let ghost steps = moves;
                let occupied_squares = position.get_colour_occupancy(&piece.colour());
                moves = moves & !occupied_squares;
                proof {
                    assert forall|j: int| 0 <= j < 64 implies (occupies(moves, j) <==> occupies(steps, j)) by {
                        lemma_bit_ops(steps, !occupied_squares, j as u64);
                        lemma_bit_ops(occupied_squares, occupied_squares, j as u64);
                        if occupies(steps, j) {
                            lemma_slide_not_friendly(pos, o, all_directions(), 1, c, j);
                        }
                    }
                }
            },
        }
    }
    moves
}

/// Sliding never wraps round the edge of the board: every square reached
/// lies on one of the sliding directions, between one and seven steps from
/// the origin, with its file and rank moved by whole steps of that
/// direction.
pub proof fn lemma_slide_stays_on_line(
    pos: Position,
    origin: int,
    dirs: Seq<Direction>,
    limit: int,
    c: Colour,
    j: int,
)
    requires
        0 <= origin < 64,
        slide_reaches(pos, origin, dirs, limit, c, j),
    ensures
        0 <= j < 64,
        exists|n: int, k: int|
            0 <= n < dirs.len() && 1 <= k <= 7 && file_of(j) == #[trigger] ray_file(
                origin,
                dirs[n],
                k,
            ) && rank_of(j) == ray_rank(origin, dirs[n], k),
{
    let n = choose|n: int| 0 <= n < dirs.len() && #[trigger] ray_contains(pos, origin, dirs[n], limit, c, j);
    let d = dirs[n];
    reveal(ray_contains);
    let k = choose|k: int|
        #![trigger ray_square(origin, d, k)]
        1 <= k <= limit && ray_on_board(origin, d, k) && j == ray_square(origin, d, k) && (forall|m: int|
            1 <= m < k ==> !occupies(pos.spec_occupancy(), #[trigger] ray_square(origin, d, m)))
            && !occupies(pos.spec_colour_occupancy(c), j);
    lemma_ray_on_board(origin, d, k, k);
    assert(file_of(j) == ray_file(origin, d, k));
    assert(rank_of(j) == ray_rank(origin, d, k));
}

} // verus!
