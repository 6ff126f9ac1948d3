use tetris::piece::{Piece, Type};

fn cells(blocks: [bool; 16]) -> Vec<usize> {
    let mut v = Vec::new();
    for (i, b) in blocks.iter().enumerate() {
        if *b {
            v.push(i);
        }
    }
    v
}

#[test]
fn o_piece_sits_in_the_middle_of_its_box() {
    let p = Piece::new(Type::O, 2);
    assert_eq!(cells(p.blocks()), vec![5, 6, 9, 10]);
}

#[test]
fn i_piece_lies_flat_and_stands_up() {
    assert_eq!(cells(Piece::new(Type::I, 0).blocks()), vec![8, 9, 10, 11]);
    assert_eq!(cells(Piece::new(Type::I, 1).blocks()), vec![2, 6, 10, 14]);
    assert_eq!(cells(Piece::new(Type::I, 2).blocks()), vec![8, 9, 10, 11]);
}

#[test]
fn t_piece_in_orientation_zero() {
    assert_eq!(cells(Piece::new(Type::T, 0).blocks()), vec![9, 10, 11, 14]);
}

#[test]
fn empty_piece_has_no_blocks() {
    assert_eq!(cells(Piece::new(Type::Empty, 0).blocks()), Vec::<usize>::new());
}

#[test]
fn every_tetromino_has_four_blocks_in_every_orientation() {
    for t in 0..7u32 {
        for o in 0..4u8 {
            let p = Piece::new(Type::from_int(t), o);
            assert_eq!(cells(p.blocks()).len(), 4);
        }
    }
}

#[test]
fn turning_back_and_forth_restores_the_shape() {
    for t in 0..7u32 {
        let p = Piece::new(Type::from_int(t), 2);
        let back = p.rotate(true).rotate(false);
        assert_eq!(back.blocks(), p.blocks());
        assert_eq!(back.get_type(), p.get_type());
    }
}

#[test]
fn four_turns_restore_the_shape() {
    for t in 0..7u32 {
        let p = Piece::new(Type::from_int(t), 1);
        let r = p.rotate(true).rotate(true).rotate(true).rotate(true);
        assert_eq!(r.blocks(), p.blocks());
        let l = p.rotate(false).rotate(false).rotate(false).rotate(false);
        assert_eq!(l.blocks(), p.blocks());
    }
}

#[test]
fn rotation_keeps_orientation_below_four() {
    let p = Piece::new(Type::L, 3).rotate(false);
    assert!(p.orientation_below(1));
    assert!(!p.orientation_below(0));
}

#[test]
fn type_numbers_round_trip() {
    for i in 0..8u32 {
        assert_eq!(Type::from_int(i).index(), i as usize);
    }
    assert_eq!(Type::from_int(7), Type::Empty);
    assert_eq!(Type::from_int(0), Type::O);
    assert_eq!(Type::from_int(6), Type::Z);
}
