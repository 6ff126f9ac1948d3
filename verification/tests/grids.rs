use tetris::array2d::Array2D;

#[test]
fn new_grid_holds_the_default_everywhere() {
    let a = Array2D::new(3, 2, 7u8);
    assert_eq!(a.width(), 3);
    assert_eq!(a.height(), 2);
    for x in 0..3 {
        for y in 0..2 {
            assert_eq!(*a.at(x, y), 7);
        }
    }
}

#[test]
fn set_changes_one_cell() {
    let mut a = Array2D::new(3, 2, 0i32);
    a.set(2, 1, 5);
    *a.at_mut(0, 1) = 9;
    assert_eq!(*a.at(2, 1), 5);
    assert_eq!(*a.at(0, 1), 9);
    assert_eq!(*a.at(1, 1), 0);
    assert_eq!(*a.at(2, 0), 0);
}

#[test]
fn for_each_visits_rows_in_order() {
    let mut a = Array2D::new(2, 2, 0u16);
    a.set(1, 0, 1);
    a.set(0, 1, 2);
    a.set(1, 1, 3);
    let mut seen = Vec::new();
    a.for_each(&mut |x: i32, y: i32, v: &u16| seen.push((x, y, *v)));
    assert_eq!(seen, vec![(0, 0, 0), (1, 0, 1), (0, 1, 2), (1, 1, 3)]);
}

#[test]
fn copy_is_independent() {
    let mut a = Array2D::new(2, 2, false);
    let b = a.copy();
    a.set(0, 0, true);
    assert!(!*b.at(0, 0));
    assert!(*a.at(0, 0));
}
