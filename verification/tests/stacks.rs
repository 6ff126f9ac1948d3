use tetris::piece::{Piece, Type};
use tetris::stack::Stack;

#[test]
fn new_stack_is_empty() {
    let s = Stack::new(4, 5);
    assert_eq!(s.width(), 4);
    assert_eq!(s.height(), 5);
    assert_eq!(s.generation(), 0);
    for x in 0..4 {
        for y in 0..5 {
            assert_eq!(*s.blocks().at(x, y), Type::Empty);
        }
    }
}

#[test]
fn piece_fits_inside_and_not_outside() {
    let s = Stack::new(10, 20);
    let o = Piece::new(Type::O, 2);
    assert!(s.fits(o, 0, 0));
    assert!(s.fits(o, -1, -1));
    assert!(!s.fits(o, -2, 0));
    assert!(!s.fits(o, 8, 0));
    assert!(!s.fits(o, 0, -2));
    assert!(s.fits(o, 0, 30));
}

#[test]
fn merged_piece_blocks_its_place() {
    let s = Stack::new(10, 20);
    let o = Piece::new(Type::O, 2);
    let m = s.merge(o, 0, 0);
    assert_eq!(m.generation(), 1);
    assert_eq!(*m.blocks().at(1, 1), Type::O);
    assert_eq!(*m.blocks().at(2, 1), Type::O);
    assert_eq!(*m.blocks().at(1, 2), Type::O);
    assert_eq!(*m.blocks().at(2, 2), Type::O);
    assert_eq!(*m.blocks().at(0, 0), Type::Empty);
    assert!(!m.fits(o, 0, 0));
    assert!(m.fits(o, 2, 0));
    assert_eq!(*s.blocks().at(1, 1), Type::Empty);
}

#[test]
fn merge_drops_blocks_above_the_top() {
    let s = Stack::new(4, 4);
    let i = Piece::new(Type::I, 1);
    let m = s.merge(i, 0, 1);
    assert_eq!(*m.blocks().at(2, 1), Type::I);
    assert_eq!(*m.blocks().at(2, 3), Type::I);
}

#[test]
fn full_row_is_removed_and_rows_above_fall() {
    let s = Stack::new(4, 4);
    let i = Piece::new(Type::I, 0);
    let o = Piece::new(Type::O, 2);
    let s = s.merge(i, 0, -2);
    let s = s.merge(o, -1, 0);
    let (e, rows) = s.eliminate();
    assert_eq!(rows, vec![0]);
    assert_eq!(e.generation(), 3);
    assert_eq!(*e.blocks().at(0, 0), Type::O);
    assert_eq!(*e.blocks().at(1, 0), Type::O);
    assert_eq!(*e.blocks().at(0, 1), Type::O);
    assert_eq!(*e.blocks().at(1, 1), Type::O);
    assert_eq!(*e.blocks().at(2, 0), Type::Empty);
    assert_eq!(*e.blocks().at(0, 2), Type::Empty);
    assert_eq!(*e.blocks().at(3, 3), Type::Empty);
}

#[test]
fn several_rows_are_reported_from_the_top_down() {
    let s = Stack::new(4, 6);
    let i = Piece::new(Type::I, 0);
    let s = s.merge(i, 0, -2).merge(i, 0, -1).merge(i, 0, 0);
    let (e, rows) = s.eliminate();
    assert_eq!(rows, vec![2, 1, 0]);
    for x in 0..4 {
        for y in 0..6 {
            assert_eq!(*e.blocks().at(x, y), Type::Empty);
        }
    }
}

#[test]
fn nothing_to_remove_leaves_the_field() {
    let s = Stack::new(4, 4).merge(Piece::new(Type::T, 0), 0, -2);
    let (e, rows) = s.eliminate();
    assert!(rows.is_empty());
    for x in 0..4 {
        for y in 0..4 {
            assert_eq!(*e.blocks().at(x, y), *s.blocks().at(x, y));
        }
    }
}
