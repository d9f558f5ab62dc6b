use a4::squareset::SquareSet;
use a4::types::{
    Direction, File, Rank, Square, A1, A3, A4, A5, FILE_B, FILE_C, H6, RANK_1, RANK_2, RANK_7,
};

fn sq(index: u8) -> Square {
    Square::new(index)
}

#[test]
fn squareset_test_set_clear() {
    let mut set = SquareSet::empty();
    assert!(!set.contains(sq(A1)));
    set.insert(sq(A1));
    assert!(set.contains(sq(A1)));
    set.remove(sq(A1));
    assert!(!set.contains(sq(A1)));
}

#[test]
fn squareset_count() {
    let mut set = SquareSet::empty();
    set.insert(sq(A3));
    set.insert(sq(A4));
    set.insert(sq(A5));
    assert_eq!(set.len(), 3);
}

#[test]
fn squareset_iter() {
    let mut set = SquareSet::empty();
    set.insert(sq(A3));
    set.insert(sq(A4));
    set.insert(sq(A5));
    let mut squares = Vec::new();
    let mut it = set.into_iter();
    while let Some(square) = it.next() {
        squares.push(square);
    }
    assert_eq!(squares, vec![sq(A3), sq(A4), sq(A5)]);
    assert_eq!(set.to_vec(), vec![sq(A3), sq(A4), sq(A5)]);
}

#[test]
fn rank() {
    let set = SquareSet::all();
    assert!(!set.rank(Rank::new(RANK_7)).is_empty());
}

#[test]
fn shift_up() {
    let rank_1 = SquareSet::all().rank(Rank::new(RANK_1));
    let rank_2 = rank_1.shift(Direction::North);
    assert_eq!(rank_2, SquareSet::all().rank(Rank::new(RANK_2)))
}

#[test]
fn shift_left() {
    let file_c = SquareSet::all().file(File::new(FILE_C));
    let file_b = file_c.shift(Direction::West);
    assert_eq!(file_b, SquareSet::all().file(File::new(FILE_B)));
}

#[test]
fn shift_upright() {
    let mut set = SquareSet::empty();
    set.insert(sq(H6));
    let result = set.shift(Direction::NorthEast);
    assert!(result.is_empty());
}

#[test]
fn set_algebra_on_bits() {
    let a = SquareSet::from_bits(0b1100);
    let b = SquareSet::from_bits(0b1010);
    assert_eq!(a.and(b).bits(), 0b1000);
    assert_eq!(a.or(b).bits(), 0b1110);
    assert_eq!(a.xor(b).bits(), 0b0110);
    assert_eq!(a.not().bits(), !0b1100u64);
    assert_eq!(SquareSet::all().len(), 64);
    assert_eq!(SquareSet::empty().len(), 0);
    assert!(SquareSet::empty().into_iter().next().is_none());
}

#[test]
fn shifts_drop_squares_that_leave_the_board() {
    let all = SquareSet::all();
    assert_eq!(all.shift(Direction::North).bits(), 0xFFFF_FFFF_FFFF_FF00);
    assert_eq!(all.shift(Direction::South).bits(), 0x00FF_FFFF_FFFF_FFFF);
    assert_eq!(all.shift(Direction::East).bits(), 0xFEFE_FEFE_FEFE_FEFE);
    assert_eq!(all.shift(Direction::West).bits(), 0x7F7F_7F7F_7F7F_7F7F);
    assert_eq!(all.shift(Direction::NorthEast).bits(), 0xFEFE_FEFE_FEFE_FE00);
    assert_eq!(all.shift(Direction::NorthWest).bits(), 0x7F7F_7F7F_7F7F_7F00);
    assert_eq!(all.shift(Direction::SouthEast).bits(), 0x00FE_FEFE_FEFE_FEFE);
    assert_eq!(all.shift(Direction::SouthWest).bits(), 0x007F_7F7F_7F7F_7F7F);
}

#[test]
fn rank_and_file_masks() {
    assert_eq!(SquareSet::all().rank(Rank::new(RANK_1)).bits(), a4::squareset::SS_RANK_1);
    assert_eq!(SquareSet::all().rank(Rank::new(RANK_7)).bits(), a4::squareset::SS_RANK_7);
    assert_eq!(SquareSet::all().file(File::new(FILE_B)).bits(), a4::squareset::SS_FILE_B);
    assert_eq!(SquareSet::all().file(File::new(7)).bits(), a4::squareset::SS_FILE_H);
}

#[test]
fn test_set_clear() {
    let mut set = SquareSet::empty();
    assert!(!set.contains(sq(A1)));
    set.insert(sq(A1));
    assert!(set.contains(sq(A1)));
    set.remove(sq(A1));
    assert!(!set.contains(sq(A1)));
}

#[test]
fn count() {
    let mut set = SquareSet::empty();
    set.insert(sq(A3));
    set.insert(sq(A4));
    set.insert(sq(A5));
    assert_eq!(set.len(), 3);
}

#[test]
fn iter() {
    let mut set = SquareSet::empty();
    set.insert(sq(A3));
    set.insert(sq(A4));
    set.insert(sq(A5));
    let squares: Vec<_> = set.to_vec();
    assert_eq!(squares, vec![sq(A3), sq(A4), sq(A5)]);
}
