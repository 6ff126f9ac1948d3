use tetris::array2d::Array2D;
use tetris::mesh::{fill_offsets, gen_indices, gen_ribbon_buffer, generate_indices, generate_plate_coords};

#[test]
fn plate_coords_clamp_to_the_plate() {
    let c = generate_plate_coords(2);
    assert_eq!(c.len(), 50);
    let xs: Vec<u16> = (0..5).map(|i| c[2 * i]).collect();
    assert_eq!(xs, vec![19660, 19660, 32767, 45873, 45873]);
    let ys: Vec<u16> = (0..5).map(|j| c[2 * (5 * j) + 1]).collect();
    assert_eq!(ys, vec![19660, 19660, 32767, 45873, 45873]);
}

#[test]
fn full_mesh_skips_ring_corners() {
    let (tri, wire) = generate_indices(1);
    assert_eq!(tri.len(), 5 * 6);
    assert_eq!(wire, vec![5, 9, 5, 10, 5, 6]);
    assert_eq!(&tri[0..6], &[4, 8, 9, 4, 9, 5]);
}

#[test]
fn ribbon_flags_mark_the_ring() {
    let r = gen_ribbon_buffer(1);
    assert_eq!(r.len(), 25);
    assert_eq!(r.iter().filter(|v| **v == 255).count(), 16);
    assert_eq!(r[6], 0);
    assert_eq!(r[12], 0);
    assert_eq!(r[0], 255);
    assert_eq!(r[24], 255);
}

#[test]
fn coarse_water_mesh() {
    let i = gen_indices(1, 2, false);
    assert_eq!(i.len(), 24);
    assert_eq!(&i[0..6], &[8, 22, 24, 24, 10, 8]);
}

#[test]
fn water_mesh_with_ribbons() {
    let i = gen_indices(5, 2, true);
    assert_eq!(i.len(), (16 + 16 + 4) * 6);
    let corner = &i[i.len() - 6..];
    assert_eq!(corner, &[5 * 7 + 5, 6 * 7 + 5, 6 * 7 + 6, 6 * 7 + 6, 5 * 7 + 6, 5 * 7 + 5]);
}

#[test]
fn offsets_point_at_the_coarsest_split() {
    let mut parents = Array2D::new(5, 5, ((0u16, 0u16), (0u16, 0u16)));
    fill_offsets(0, 2, 0, 0, 4, 4, &mut parents);
    assert_eq!(*parents.at(0, 0), ((0, 0), (0, 0)));
    assert_eq!(*parents.at(4, 4), ((4, 4), (4, 4)));
    assert_eq!(*parents.at(0, 2), ((0, 0), (0, 4)));
    assert_eq!(*parents.at(2, 2), ((0, 0), (4, 4)));
    assert_eq!(*parents.at(2, 0), ((0, 0), (4, 0)));
    assert_eq!(*parents.at(1, 1), ((0, 0), (2, 2)));
    assert_eq!(*parents.at(1, 0), ((0, 0), (2, 0)));
    assert_eq!(*parents.at(3, 2), ((2, 2), (4, 2)));
    for x in 0..5u16 {
        for y in 0..5u16 {
            let ((ax, ay), (bx, by)) = *parents.at(x as usize, y as usize);
            assert_eq!(ax + bx, 2 * x);
            assert_eq!(ay + by, 2 * y);
        }
    }
}
