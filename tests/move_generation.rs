use bitboard_chess::move_generation::{
    check_if_square_obstructed, generate_moves, generate_pawn_attacks, generate_sliding_moves,
    is_at_edge_in_direction, step_in_direction, Direction,
};
use bitboard_chess::pieces::{Colour, Piece};
use bitboard_chess::position::{get_starting_position, Position};

fn sq(i: u32) -> u64 {
    1u64 << i
}

fn squares(indices: &[u32]) -> u64 {
    indices.iter().fold(0, |acc, &i| acc | sq(i))
}

fn empty_position() -> Position {
    Position {
        white_pawn: 0,
        white_knight: 0,
        white_bishop: 0,
        white_rook: 0,
        white_queen: 0,
        white_king: 0,
        black_pawn: 0,
        black_knight: 0,
        black_bishop: 0,
        black_rook: 0,
        black_queen: 0,
        black_king: 0,
        turn: Colour::White,
        last_moved_squares: 0,
        en_passant_square: 0,
    }
}

fn alone(piece: Piece, index: u32) -> Position {
    let mut p = empty_position();
    p.insert_piece_at_square(&piece, &sq(index));
    p
}

#[test]
fn knight_on_b1_in_starting_position() {
    let p = get_starting_position();
    assert_eq!(generate_moves(&p, &sq(1)), squares(&[16, 18]));
}

#[test]
fn rook_on_a1_in_starting_position_is_blocked() {
    let p = get_starting_position();
    assert_eq!(generate_moves(&p, &sq(0)), 0);
}

#[test]
fn bishop_on_c1_in_starting_position_is_blocked() {
    let p = get_starting_position();
    assert_eq!(generate_moves(&p, &sq(2)), 0);
}

#[test]
fn queen_and_king_in_starting_position_are_blocked() {
    let p = get_starting_position();
    assert_eq!(generate_moves(&p, &sq(3)), 0);
    assert_eq!(generate_moves(&p, &sq(4)), 0);
}

#[test]
fn rook_alone_on_d4_reaches_its_rank_and_file() {
    let p = alone(Piece::WhiteRook, 27);
    let rank_4 = 0xffu64 << 24;
    let file_d = 0x0808_0808_0808_0808u64;
    let moves = generate_moves(&p, &sq(27));
    assert_eq!(moves, (rank_4 | file_d) & !sq(27));
    assert_eq!(moves.count_ones(), 14);
}

#[test]
fn pawn_pushes_from_home_rank_and_beyond() {
    let p = alone(Piece::WhitePawn, 12);
    assert_eq!(generate_moves(&p, &sq(12)), squares(&[20, 28]));
    let q = alone(Piece::WhitePawn, 20);
    assert_eq!(generate_moves(&q, &sq(20)), squares(&[28]));
}

#[test]
fn black_pawn_pushes_down_the_board() {
    let p = alone(Piece::BlackPawn, 52);
    assert_eq!(generate_moves(&p, &sq(52)), squares(&[44, 36]));
    let q = alone(Piece::BlackPawn, 44);
    assert_eq!(generate_moves(&q, &sq(44)), squares(&[36]));
}

#[test]
fn blocked_pawn_has_no_pushes() {
    let mut p = alone(Piece::WhitePawn, 12);
    p.insert_piece_at_square(&Piece::BlackKnight, &sq(20));
    assert_eq!(generate_moves(&p, &sq(12)), 0);
    let mut q = alone(Piece::WhitePawn, 12);
    q.insert_piece_at_square(&Piece::BlackKnight, &sq(28));
    assert_eq!(generate_moves(&q, &sq(12)), squares(&[20]));
}

#[test]
fn pawn_captures_only_opposing_pieces_diagonally() {
    let mut p = alone(Piece::WhitePawn, 28);
    p.insert_piece_at_square(&Piece::BlackPawn, &sq(35));
    p.insert_piece_at_square(&Piece::WhiteKnight, &sq(37));
    assert_eq!(generate_moves(&p, &sq(28)), squares(&[36, 35]));
}

#[test]
fn pawn_attacks_do_not_wrap_between_files() {
    let mut p = alone(Piece::WhitePawn, 15);
    p.insert_piece_at_square(&Piece::BlackPawn, &sq(24));
    p.insert_piece_at_square(&Piece::BlackPawn, &sq(22));
    assert_eq!(generate_moves(&p, &sq(15)), squares(&[23, 31, 22]));
}

#[test]
fn knight_in_the_corner_has_two_jumps() {
    let p = alone(Piece::WhiteKnight, 0);
    assert_eq!(generate_moves(&p, &sq(0)), squares(&[10, 17]));
    let q = alone(Piece::BlackKnight, 63);
    assert_eq!(generate_moves(&q, &sq(63)), squares(&[53, 46]));
}

#[test]
fn knight_in_the_centre_has_eight_jumps() {
    let p = alone(Piece::WhiteKnight, 27);
    assert_eq!(
        generate_moves(&p, &sq(27)),
        squares(&[44, 42, 37, 33, 21, 17, 12, 10])
    );
}

#[test]
fn bishop_alone_on_a1_sweeps_the_long_diagonal() {
    let p = alone(Piece::WhiteBishop, 0);
    assert_eq!(generate_moves(&p, &sq(0)), squares(&[9, 18, 27, 36, 45, 54, 63]));
}

#[test]
fn rook_alone_on_h8_does_not_wrap() {
    let p = alone(Piece::BlackRook, 63);
    let rank_8 = 0xffu64 << 56;
    let file_h = 0x8080_8080_8080_8080u64;
    assert_eq!(generate_moves(&p, &sq(63)), (rank_8 | file_h) & !sq(63));
}

#[test]
fn sliding_stops_on_capture_and_before_friends() {
    let mut p = alone(Piece::WhiteRook, 0);
    p.insert_piece_at_square(&Piece::BlackPawn, &sq(24));
    p.insert_piece_at_square(&Piece::WhiteKing, &sq(3));
    assert_eq!(generate_moves(&p, &sq(0)), squares(&[8, 16, 24, 1, 2]));
}

#[test]
fn queen_alone_on_d4_has_twenty_seven_moves() {
    let p = alone(Piece::WhiteQueen, 27);
    assert_eq!(generate_moves(&p, &sq(27)).count_ones(), 27);
}

#[test]
fn king_steps_one_square_each_way() {
    let p = alone(Piece::WhiteKing, 27);
    assert_eq!(
        generate_moves(&p, &sq(27)),
        squares(&[18, 19, 20, 26, 28, 34, 35, 36])
    );
    let q = alone(Piece::BlackKing, 0);
    assert_eq!(generate_moves(&q, &sq(0)), squares(&[1, 8, 9]));
}

#[test]
fn king_may_take_but_not_land_on_friends() {
    let mut p = alone(Piece::WhiteKing, 4);
    p.insert_piece_at_square(&Piece::WhitePawn, &sq(12));
    p.insert_piece_at_square(&Piece::BlackPawn, &sq(11));
    assert_eq!(generate_moves(&p, &sq(4)), squares(&[3, 5, 11, 13]));
}

#[test]
fn empty_square_has_no_moves() {
    let p = get_starting_position();
    assert_eq!(generate_moves(&p, &sq(28)), 0);
}

#[test]
fn obstruction_is_by_friendly_pieces_only() {
    let p = get_starting_position();
    assert!(check_if_square_obstructed(&p, &sq(8), &Colour::White));
    assert!(!check_if_square_obstructed(&p, &sq(8), &Colour::Black));
    assert!(!check_if_square_obstructed(&p, &sq(28), &Colour::White));
}

#[test]
fn edges_by_direction() {
    assert!(is_at_edge_in_direction(&Direction::North, &sq(60)));
    assert!(!is_at_edge_in_direction(&Direction::South, &sq(60)));
    assert!(is_at_edge_in_direction(&Direction::East, &sq(15)));
    assert!(is_at_edge_in_direction(&Direction::West, &sq(8)));
    assert!(is_at_edge_in_direction(&Direction::NorthEast, &sq(39)));
    assert!(is_at_edge_in_direction(&Direction::SouthWest, &sq(3)));
    assert!(!is_at_edge_in_direction(&Direction::NorthWest, &sq(27)));
    assert!(is_at_edge_in_direction(&Direction::SouthEast, &sq(0)));
}

#[test]
fn steps_by_direction() {
    assert_eq!(step_in_direction(&Direction::North, &sq(27)), sq(35));
    assert_eq!(step_in_direction(&Direction::East, &sq(27)), sq(28));
    assert_eq!(step_in_direction(&Direction::South, &sq(27)), sq(19));
    assert_eq!(step_in_direction(&Direction::West, &sq(27)), sq(26));
    assert_eq!(step_in_direction(&Direction::NorthEast, &sq(27)), sq(36));
    assert_eq!(step_in_direction(&Direction::SouthEast, &sq(27)), sq(20));
    assert_eq!(step_in_direction(&Direction::SouthWest, &sq(27)), sq(18));
    assert_eq!(step_in_direction(&Direction::NorthWest, &sq(27)), sq(34));
}

#[test]
fn sliding_moves_are_added_to_what_is_there() {
    let p = alone(Piece::WhiteRook, 0);
    let mut moves = sq(40);
    generate_sliding_moves(
        &mut moves,
        vec![Direction::North],
        2,
        &p,
        &sq(0),
        &Colour::White,
    );
    assert_eq!(moves, squares(&[40, 8, 16]));
}

#[test]
fn sliding_from_corners_never_leaves_the_line() {
    for corner in [0u32, 7, 56, 63] {
        let p = alone(Piece::WhiteQueen, corner);
        let moves = generate_moves(&p, &sq(corner));
        assert_eq!(moves.count_ones(), 21);
        let file = corner % 8;
        let rank = corner / 8;
        for j in 0..64u32 {
            if moves & sq(j) != 0 {
                let df = (j % 8) as i32 - file as i32;
                let dr = (j / 8) as i32 - rank as i32;
                assert!(df == 0 || dr == 0 || df.abs() == dr.abs());
            }
        }
    }
}

#[test]
fn pawn_attacks_of_a_set_of_pawns() {
    let p = get_starting_position();
    assert_eq!(generate_pawn_attacks(&p, &sq(8)), sq(17));
    assert_eq!(generate_pawn_attacks(&p, &sq(15)), sq(22));
    assert_eq!(generate_pawn_attacks(&p, &sq(52)), squares(&[43, 45]));
    assert_eq!(generate_pawn_attacks(&p, &p.white_pawn), 0xff_0000);
}
