use std::collections::HashSet;

use vstd::prelude::*;

verus! {

/// Whether bit `i` of `b` is set, for a square index `i` on the board.
pub open spec fn occupies(b: u64, i: int) -> bool {
    0 <= i < 64 && (b >> (i as u64)) & 1u64 == 1u64
}

/// The one-bit mask of square `i`.
pub open spec fn square_mask(i: int) -> u64 {
    1u64 << (i as u64)
}

/// A square mask has exactly the bit of its own square set.
pub proof fn lemma_square_mask_bit(i: u64, j: u64)
    by (bit_vector)
    requires
        i < 64,
        j < 64,
    ensures
        ((1u64 << i) >> j) & 1u64 == 1u64 <==> i == j,
{
}

/// The bits of a union, an intersection and a complement.
pub proof fn lemma_bit_ops(a: u64, b: u64, j: u64)
    by (bit_vector)
    requires
        j < 64,
    ensures
        ((a | b) >> j) & 1u64 == 1u64 <==> ((a >> j) & 1u64 == 1u64 || (b >> j) & 1u64 == 1u64),
        ((a & b) >> j) & 1u64 == 1u64 <==> ((a >> j) & 1u64 == 1u64 && (b >> j) & 1u64 == 1u64),
        ((!a) >> j) & 1u64 == 1u64 <==> !((a >> j) & 1u64 == 1u64),
        ((a ^ b) >> j) & 1u64 == 1u64 <==> ((a >> j) & 1u64 == 1u64) != ((b >> j) & 1u64 == 1u64),
        (0u64 >> j) & 1u64 == 0u64,
{
}

/// Testing a square mask against a board reads that square's bit.
pub proof fn lemma_square_mask_and(i: u64, x: u64)
    by (bit_vector)
    requires
        i < 64,
    ensures
        ((1u64 << i) & x != 0) <==> ((x >> i) & 1u64 == 1u64),
        (x & (1u64 << i) != 0) <==> ((x >> i) & 1u64 == 1u64),
{
}

/// Shifting a square mask moves it by the shift, or off the board.
pub proof fn lemma_square_mask_shift(i: u64, s: u64)
    by (bit_vector)
    requires
        i < 64,
        s < 64,
    ensures
        i + s < 64 ==> (1u64 << i) << s == 1u64 << ((i + s) as u64),
        i + s >= 64 ==> (1u64 << i) << s == 0,
        i >= s ==> (1u64 << i) >> s == 1u64 << ((i - s) as u64),
        i < s ==> (1u64 << i) >> s == 0,
{
}

/// The bits of a masked board shifted towards the high squares.
pub proof fn lemma_shift_left_bits(x: u64, m: u64, s: u64, j: u64)
    by (bit_vector)
    requires
        s < 64,
        j < 64,
    ensures
        ((((x & !m) << s) >> j) & 1u64 == 1u64) <==> (j >= s && ((x >> (j - s) as u64) & 1u64
            == 1u64) && ((m >> (j - s) as u64) & 1u64 == 0u64)),
        (((x << s) >> j) & 1u64 == 1u64) <==> (j >= s && ((x >> (j - s) as u64) & 1u64 == 1u64)),
{
}

/// The bits of a masked board shifted towards the low squares.
pub proof fn lemma_shift_right_bits(x: u64, m: u64, s: u64, j: u64)
    by (bit_vector)
    requires
        s < 64,
        j < 64,
    ensures
        ((((x & !m) >> s) >> j) & 1u64 == 1u64) <==> (j + s < 64 && ((x >> (j + s) as u64) & 1u64
            == 1u64) && ((m >> (j + s) as u64) & 1u64 == 0u64)),
        (((x >> s) >> j) & 1u64 == 1u64) <==> (j + s < 64 && ((x >> (j + s) as u64) & 1u64 == 1u64)),
{
}

/// Why a square could not be read or written in algebraic notation.
#[derive(Clone, Copy, Debug, PartialEq, Eq, Structural)]
pub enum SquareError {
    /// The notation is not exactly two characters long.
    InvalidLength,
    /// The first character is not a file letter from 'a' to 'h'.
    InvalidFile,
    /// The second character is not a rank digit from '1' to '8'.
    InvalidRank,
    /// The index is not that of a square (it is over 63).
    IndexOutOfRange,
}

/// Whether `c` is a file letter, 'a' to 'h'.
pub open spec fn is_file_char(c: char) -> bool {
    'a' <= c <= 'h'
}

/// Whether `c` is a rank digit, '1' to '8'.
pub open spec fn is_rank_char(c: char) -> bool {
    '1' <= c <= '8'
}

/// The square that algebraic notation `s` names, or why it names none.
pub open spec fn parse_square(s: Seq<char>) -> Result<usize, SquareError> {
    if s.len() != 2 {
        Err(SquareError::InvalidLength)
    } else if !is_file_char(s[0]) {
        Err(SquareError::InvalidFile)
    } else if !is_rank_char(s[1]) {
        Err(SquareError::InvalidRank)
    } else {
        Ok(((s[1] as int - '1' as int) * 8 + (s[0] as int - 'a' as int)) as usize)
    }
}

/// The letter of file `f` (0 for 'a').
pub open spec fn file_char(f: int) -> char {
    if f == 0 {
        'a'
    } else if f == 1 {
        'b'
    } else if f == 2 {
        'c'
    } else if f == 3 {
        'd'
    } else if f == 4 {
        'e'
    } else if f == 5 {
        'f'
    } else if f == 6 {
        'g'
    } else {
        'h'
    }
}

/// The digit of rank `r` (0 for '1').
pub open spec fn rank_char(r: int) -> char {
    if r == 0 {
        '1'
    } else if r == 1 {
        '2'
    } else if r == 2 {
        '3'
    } else if r == 3 {
        '4'
    } else if r == 4 {
        '5'
    } else if r == 5 {
        '6'
    } else if r == 6 {
        '7'
    } else {
        '8'
    }
}

/// The algebraic notation of square `i`: its file letter, then its rank digit.
pub open spec fn square_name(i: int) -> Seq<char> {
    seq![file_char(i % 8), rank_char(i / 8)]
}

/// Reads a square in algebraic notation ("e4") and returns its index,
/// `rank * 8 + file`.
pub fn algebraic_to_index(algebraic: &str) -> (r: Result<usize, SquareError>)
    ensures
        r == parse_square(algebraic@),
{
    if algebraic.unicode_len() != 2 {
        return Err(SquareError::InvalidLength);
    }
    let file: char = algebraic.get_char(0);
    let rank: char = algebraic.get_char(1);
    let file_index: u32 = if 'a' <= file && file <= 'h' {
        file as u32 - 'a' as u32
    } else {
        return Err(SquareError::InvalidFile);
    };
    let rank_index: u32 = if '1' <= rank && rank <= '8' {
        rank as u32 - '1' as u32
    } else {
        return Err(SquareError::InvalidRank);
    };
    Ok((rank_index * 8 + file_index) as usize)
}

/// The file letter of file `f` as a one-character string.
fn file_str(f: usize) -> (r: &'static str)
    requires
        f < 8,
    ensures
        r@ == seq![file_char(f as int)],
{
    match f {
        0 => {
            proof {
                reveal_strlit("a");
            }
            "a"
        },
        1 => {
            proof {
                reveal_strlit("b");
            }
            "b"
        },
        2 => {
            proof {
                reveal_strlit("c");
            }
            "c"
        },
        3 => {
            proof {
                reveal_strlit("d");
            }
            "d"
        },
        4 => {
            proof {
                reveal_strlit("e");
            }
            "e"
        },
        5 => {
            proof {
                reveal_strlit("f");
            }
            "f"
        },
        6 => {
            proof {
                reveal_strlit("g");
            }
            "g"
        },
        _ => {
            proof {
                reveal_strlit("h");
            }
            "h"
        },
    }
}

/// The rank digit of rank `r` as a one-character string.
fn rank_str(r: usize) -> (s: &'static str)
    requires
        r < 8,
    ensures
        s@ == seq![rank_char(r as int)],
{
    match r {
        0 => {
            proof {
                reveal_strlit("1");
            }
            "1"
        },
        1 => {
            proof {
                reveal_strlit("2");
            }
            "2"
        },
        2 => {
            proof {
                reveal_strlit("3");
            }
            "3"
        },
        3 => {
            proof {
                reveal_strlit("4");
            }
            "4"
        },
        4 => {
            proof {
                reveal_strlit("5");
            }
            "5"
        },
        5 => {
            proof {
                reveal_strlit("6");
            }
            "6"
        },
        6 => {
            proof {
                reveal_strlit("7");
            }
            "7"
        },
        _ => {
            proof {
                reveal_strlit("8");
            }
            "8"
        },
    }
}

/// Writes square `index` in algebraic notation ("e4").
pub fn index_to_algebraic(index: &usize) -> (r: Result<String, SquareError>)
    ensures
        *index > 63 ==> r == Err::<String, SquareError>(SquareError::IndexOutOfRange),
        *index <= 63 ==> r is Ok && r->Ok_0@ == square_name(*index as int),
{
    if *index > 63 {
        return Err(SquareError::IndexOutOfRange);
    }
    let file = file_str(*index % 8);
    let rank = rank_str(*index / 8);
    let algebraic = String::from_str(file).concat(rank);
    proof {
        assert(algebraic@ =~= square_name(*index as int));
    }
    Ok(algebraic)
}

/// The bits of a board shifted right are those of the board further up, and
/// none lies past the top.
pub proof fn lemma_shift_right_bit(b: u64, a: u64, j: u64)
    by (bit_vector)
    requires
        a < 64,
        j < 64,
    ensures
        a + j < 64 ==> ((((b >> a) >> j) & 1u64 == 1u64) <==> ((b >> ((a + j) as u64)) & 1u64
            == 1u64)),
        a + j >= 64 ==> ((b >> a) >> j) & 1u64 == 0u64,
        (b >> a) == 0 && a <= j ==> (b >> j) & 1u64 == 0u64,
{
}

/// The indices of the squares set in `bitboard`.
pub fn bit_scan(bitboard: &u64) -> (r: HashSet<usize>)
    ensures
        r@ == Set::new(|i: usize| occupies(*bitboard, i as int)),
{
    broadcast use vstd::std_specs::hash::group_hash_axioms;

    let b = *bitboard;
    let mut mask = b;
    let mut indices: HashSet<usize> = HashSet::new();
    let mut index: usize = 0;
    while mask > 0
        invariant
            index <= 64,
            forall|j: u64|
                j < 64 ==> (#[trigger] ((mask >> j) & 1u64) == 1u64 <==> (index + j < 64
                    && occupies(b, index + j))),
            indices@ == Set::new(|i: usize| i < index && occupies(b, i as int)),
        decreases 64 - index,
    {
        let trailing = mask.trailing_zeros();
        proof {
            vstd::std_specs::bits::axiom_u64_trailing_zeros(mask);
            assert((mask >> (trailing as u64)) & 1u64 == 1u64);
        }
        if trailing == 0 {
            indices.insert(index);
        }
        let shift_by: u32 = if trailing > 1 {
            trailing
        } else {
            1
        };
        let ghost old_mask = mask;
        mask = mask >> shift_by;
        proof {
            let su = shift_by as u64;
            assert(index + shift_by <= 64);
            assert forall|j: u64| j < 64 implies (#[trigger] ((mask >> j) & 1u64) == 1u64 <==> (
            index + shift_by + j < 64 && occupies(b, index + shift_by + j))) by {
                lemma_shift_right_bit(old_mask, su, j);
                if su + j < 64 {
                    assert(((old_mask >> ((su + j) as u64)) & 1u64) == 1u64 <==> (index + su + j
                        < 64 && occupies(b, index + su + j)));
                } else {
                    assert(!(index + shift_by + j < 64));
                }
            }
            assert forall|i: usize| index <= i < index + shift_by implies (occupies(b, i as int)
                <==> (i == index && trailing == 0)) by {
                let k = (i - index) as u64;
                assert(((old_mask >> k) & 1u64) == 1u64 <==> occupies(b, i as int));
            }
            assert(indices@ =~= Set::new(
                |i: usize| i < index + shift_by && occupies(b, i as int),
            ));
        }
        index = index + shift_by as usize;
    }
    proof {
        assert forall|i: usize| index <= i < 64 implies !occupies(b, i as int) by {
            lemma_bit_ops(mask, mask, (i - index) as u64);
            assert(((mask >> ((i - index) as u64)) & 1u64) == 1u64 <==> occupies(b, i as int));
        }
        assert(indices@ =~= Set::new(|i: usize| occupies(b, i as int)));
    }
    indices
}

/// Writing a square in algebraic notation and reading it back gives the
/// same square, for each of the 64 squares.
pub proof fn lemma_algebraic_round_trip(i: usize)
    requires
        i < 64,
    ensures
        parse_square(square_name(i as int)) == Ok::<usize, SquareError>(i),
{
    let s = square_name(i as int);
    assert(s.len() == 2);
    assert(s[0] == file_char(i as int % 8));
    assert(s[1] == rank_char(i as int / 8));
    assert(s[0] as int - 'a' as int == i as int % 8);
    assert(s[1] as int - '1' as int == i as int / 8);
}

/// Notation that is not two characters long, or whose first character is
/// not a file letter, or whose second is not a rank digit, is rejected.
pub proof fn lemma_malformed_rejected(s: Seq<char>)
    requires
        s.len() != 2 || !is_file_char(s[0]) || !is_rank_char(s[1]),
    ensures
        parse_square(s) is Err,
{
}

/// Returns the one-bit mask of the square with the given index.
pub fn index_to_bitboard(index: usize) -> (r: u64)
    requires
        index < 64,
    ensures
        r == square_mask(index as int),
{
    1u64 << (index as u64)
}

} // verus!
