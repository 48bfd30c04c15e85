use std::collections::HashSet;

use bitboard_chess::utils::{
    algebraic_to_index, bit_scan, index_to_algebraic, index_to_bitboard, SquareError,
};

#[test]
fn algebraic_to_index_reads_corners_and_centre() {
    assert_eq!(algebraic_to_index("a1"), Ok(0));
    assert_eq!(algebraic_to_index("h1"), Ok(7));
    assert_eq!(algebraic_to_index("e4"), Ok(28));
    assert_eq!(algebraic_to_index("a8"), Ok(56));
    assert_eq!(algebraic_to_index("h8"), Ok(63));
}

#[test]
fn algebraic_to_index_rejects_wrong_lengths() {
    assert_eq!(algebraic_to_index(""), Err(SquareError::InvalidLength));
    assert_eq!(algebraic_to_index("a"), Err(SquareError::InvalidLength));
    assert_eq!(algebraic_to_index("a12"), Err(SquareError::InvalidLength));
}

#[test]
fn algebraic_to_index_rejects_bad_files_and_ranks() {
    assert_eq!(algebraic_to_index("1a"), Err(SquareError::InvalidFile));
    assert_eq!(algebraic_to_index("i9"), Err(SquareError::InvalidFile));
    assert_eq!(algebraic_to_index("A1"), Err(SquareError::InvalidFile));
    assert_eq!(algebraic_to_index("a9"), Err(SquareError::InvalidRank));
    assert_eq!(algebraic_to_index("a0"), Err(SquareError::InvalidRank));
    assert_eq!(algebraic_to_index("hh"), Err(SquareError::InvalidRank));
}

#[test]
fn algebraic_to_index_counts_characters_not_bytes() {
    assert_eq!(algebraic_to_index("é1"), Err(SquareError::InvalidFile));
    assert_eq!(algebraic_to_index("é"), Err(SquareError::InvalidLength));
}

#[test]
fn index_to_algebraic_writes_squares() {
    assert_eq!(index_to_algebraic(&0), Ok("a1".to_string()));
    assert_eq!(index_to_algebraic(&28), Ok("e4".to_string()));
    assert_eq!(index_to_algebraic(&57), Ok("b8".to_string()));
    assert_eq!(index_to_algebraic(&63), Ok("h8".to_string()));
}

#[test]
fn index_to_algebraic_rejects_indices_past_the_board() {
    assert_eq!(index_to_algebraic(&64), Err(SquareError::IndexOutOfRange));
    assert_eq!(index_to_algebraic(&1000), Err(SquareError::IndexOutOfRange));
}

#[test]
fn algebraic_round_trip_on_every_square() {
    for i in 0..64usize {
        let name = index_to_algebraic(&i).unwrap();
        assert_eq!(algebraic_to_index(&name), Ok(i));
    }
}

#[test]
fn index_to_bitboard_sets_one_bit() {
    assert_eq!(index_to_bitboard(0), 1);
    assert_eq!(index_to_bitboard(5), 32);
    assert_eq!(index_to_bitboard(63), 1u64 << 63);
}

#[test]
fn bit_scan_of_empty_board_is_empty() {
    assert!(bit_scan(&0).is_empty());
}

#[test]
fn bit_scan_of_full_board_has_every_index() {
    let all: HashSet<usize> = (0..64).collect();
    assert_eq!(bit_scan(&u64::MAX), all);
}

#[test]
fn bit_scan_finds_scattered_bits() {
    let expected: HashSet<usize> = [1usize, 3, 40, 63].into_iter().collect();
    let board = (1u64 << 1) | (1u64 << 3) | (1u64 << 40) | (1u64 << 63);
    assert_eq!(bit_scan(&board), expected);
    let low: HashSet<usize> = [0usize].into_iter().collect();
    assert_eq!(bit_scan(&1), low);
}
