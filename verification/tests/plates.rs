use tetris::array2d::Array2D;
use tetris::plate::{Direction, Position};
use tetris::plateoptimizer::PlateOptimizer;

#[test]
fn root_covers_the_whole_face() {
    let p = Position::root(Direction::NegY);
    assert_eq!(p.direction(), Direction::NegY);
    assert_eq!((p.depth(), p.x(), p.y()), (0, 0, 0));
}

#[test]
fn children_double_the_coordinates() {
    let p = Position::root(Direction::PosX).child(1, 0).child(0, 1).child(1, 1);
    assert_eq!(p.direction(), Direction::PosX);
    assert_eq!(p.depth(), 3);
    assert_eq!(p.x(), 5);
    assert_eq!(p.y(), 3);
}

#[test]
fn the_four_children_differ() {
    let p = Position::root(Direction::PosZ).child(1, 1);
    let c = [p.child(0, 0), p.child(1, 0), p.child(0, 1), p.child(1, 1)];
    for i in 0..4 {
        for j in 0..4 {
            assert_eq!(c[i] == c[j], i == j);
        }
    }
    assert!(Position::root(Direction::PosZ).child(0, 0) != Position::root(Direction::NegZ).child(0, 0));
}

fn index(size: usize, x: usize, y: usize) -> u16 {
    (x + 1 + (size + 3) * (y + 1)) as u16
}

#[test]
fn nothing_mergeable_keeps_every_vertex() {
    let opt = PlateOptimizer::new(3);
    let grid = Array2D::new(9, 9, false);
    let r = opt.optimize_grid(&grid);
    assert_eq!(r.wireframe_count % 6, 0);
    assert_eq!((r.indices.len() - r.wireframe_count) % 3, 0);
    let tri = &r.indices[..r.wireframe_count];
    for x in 0..9 {
        for y in 0..9 {
            assert!(tri.contains(&index(8, x, y)));
        }
    }
    assert_eq!(r.wireframe_count, 6 * 64);
    for i in &r.indices {
        assert!((*i as usize) < 11 * 11);
    }
}

#[test]
fn everything_mergeable_gives_the_coarsest_mesh() {
    let opt = PlateOptimizer::new(3);
    let grid = Array2D::new(9, 9, true);
    let r = opt.optimize_grid(&grid);
    assert_eq!(r.wireframe_count, 6 * 4);
    let tri = &r.indices[..r.wireframe_count];
    for (x, y) in [(0, 0), (4, 0), (8, 0), (0, 4), (4, 4), (8, 4), (0, 8), (4, 8), (8, 8)] {
        assert!(tri.contains(&index(8, x, y)));
    }
    assert!(!tri.contains(&index(8, 1, 1)));
}

#[test]
fn one_fixed_vertex_is_kept() {
    let opt = PlateOptimizer::new(3);
    let mut grid = Array2D::new(9, 9, true);
    grid.set(5, 3, false);
    let r = opt.optimize_grid(&grid);
    let tri = &r.indices[..r.wireframe_count];
    assert!(tri.contains(&index(8, 5, 3)));
    assert!(r.wireframe_count > 6 * 4);
}

#[test]
fn closure_and_grid_give_the_same_mesh() {
    let opt = PlateOptimizer::new(4);
    let mut grid = Array2D::new(17, 17, true);
    for x in 0..17 {
        for y in 0..17 {
            grid.set(x, y, (x * 7 + y * 3) % 5 != 0);
        }
    }
    let a = opt.optimize_grid(&grid);
    let b = opt.optimize(|x: usize, y: usize| (x * 7 + y * 3) % 5 != 0);
    assert_eq!(a.indices, b.indices);
    assert_eq!(a.wireframe_count, b.wireframe_count);
}

#[test]
fn smallest_plate() {
    let opt = PlateOptimizer::new(2);
    let r = opt.optimize_grid(&Array2D::new(5, 5, true));
    assert_eq!(r.wireframe_count % 6, 0);
    for i in &r.indices[..r.wireframe_count] {
        let i = *i as usize;
        assert!(i % 7 >= 1 && i % 7 <= 5 && i / 7 >= 1 && i / 7 <= 5);
    }
}

#[test]
fn fully_mergeable_small_plate_is_one_quad_with_ribbons() {
    let r = PlateOptimizer::new(2).optimize(|_: usize, _: usize| true);
    assert_eq!(r.wireframe_count, 6);
    assert_eq!(
        r.indices,
        vec![8, 36, 40, 40, 12, 8, 36, 8, 35, 8, 7, 35, 12, 40, 13, 40, 41, 13, 8, 12, 1, 12, 5, 1, 40, 36, 47, 36, 43, 47]
    );
}

#[test]
fn wireframe_counts_of_merge_nothing_and_merge_everything() {
    for d in 2u16..=7 {
        let none = PlateOptimizer::new(d).optimize(|_: usize, _: usize| false);
        assert_eq!(none.wireframe_count, 6 * 4usize.pow(d as u32));
        if d >= 3 {
            let all = PlateOptimizer::new(d).optimize(|_: usize, _: usize| true);
            assert_eq!(all.wireframe_count, 24);
        }
    }
}
