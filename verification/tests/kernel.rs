use terrain_generator::boundary::{find_boundary, probe_entry, Boundary, Probe, Unreachable};
use terrain_generator::grid::{ContinentPixel, Cube, ProtoHeightMapValue};
use terrain_generator::kernel::{generate_kernel, square_root_below, KernelEntry};
use terrain_generator::side::Side;

fn offsets(radius: usize) -> Vec<(isize, isize, usize)> {
    generate_kernel(radius)
        .iter()
        .map(|e| (e.dx, e.dy, e.distance_squared))
        .collect()
}

#[test]
fn small_kernels() {
    assert!(offsets(0).is_empty());
    assert_eq!(offsets(1), vec![(0, 0, 0)]);
    assert_eq!(
        offsets(2),
        vec![
            (0, 0, 0),
            (0, -1, 1),
            (-1, 0, 1),
            (1, 0, 1),
            (0, 1, 1),
            (-1, -1, 2),
            (1, -1, 2),
            (-1, 1, 2),
            (1, 1, 2)
        ]
    );
}

#[test]
fn kernel_of_radius_three_is_sorted_by_distance_then_row_then_column() {
    assert_eq!(
        offsets(3),
        vec![
            (0, 0, 0),
            (0, -1, 1),
            (-1, 0, 1),
            (1, 0, 1),
            (0, 1, 1),
            (-1, -1, 2),
            (1, -1, 2),
            (-1, 1, 2),
            (1, 1, 2),
            (0, -2, 4),
            (-2, 0, 4),
            (2, 0, 4),
            (0, 2, 4),
            (-1, -2, 5),
            (1, -2, 5),
            (-2, -1, 5),
            (2, -1, 5),
            (-2, 1, 5),
            (2, 1, 5),
            (-1, 2, 5),
            (1, 2, 5),
            (-2, -2, 8),
            (2, -2, 8),
            (-2, 2, 8),
            (2, 2, 8)
        ]
    );
}

#[test]
fn kernel_of_radius_ten_holds_every_offset_once() {
    let kernel = offsets(10);
    assert_eq!(kernel.len(), 305);
    for dy in -10..=10isize {
        for dx in -10..=10isize {
            let inside = dx * dx + dy * dy < 100;
            let count = kernel.iter().filter(|e| e.0 == dx && e.1 == dy).count();
            assert_eq!(count, if inside { 1 } else { 0 });
        }
    }
    for pair in kernel.windows(2) {
        assert!((pair[0].2, pair[0].1, pair[0].0) < (pair[1].2, pair[1].1, pair[1].0));
    }
    for e in kernel.iter() {
        assert_eq!(e.2 as isize, e.0 * e.0 + e.1 * e.1);
    }
}

#[test]
fn whole_square_roots() {
    assert_eq!(square_root_below(0, 1), 0);
    assert_eq!(square_root_below(15, 4), 3);
    assert_eq!(square_root_below(16, 5), 4);
    assert_eq!(square_root_below(24, 5), 4);
    assert_eq!(square_root_below(99, 10), 9);
}

fn split_cube() -> Cube<u8> {
    // continent 0 everywhere, continent 1 on the columns 4.. of the back face
    let mut cube = Cube::new(8, 0u8);
    for side in [Side::L, Side::B, Side::R, Side::F, Side::U, Side::D] {
        for y in 0..8 {
            for x in 0..8 {
                let id = if side == Side::B && x >= 4 { 1 } else { 0 };
                cube.set(side, x, y, ProtoHeightMapValue { height: 0, continent_index: id });
            }
        }
    }
    cube
}

#[test]
fn nearest_foreign_cell_is_found_in_kernel_order() {
    let cube = split_cube();
    let kernel = generate_kernel(4);
    let from = ContinentPixel { side: Side::B, ix: 2, iy: 5 };
    // the nearest cells of continent 1 lie two columns to the right
    let found = find_boundary(&cube, &kernel, from);
    assert_eq!(
        found,
        Ok(Some(Boundary {
            kernel_index: 11,
            entry: KernelEntry { dx: 2, dy: 0, distance_squared: 4 },
            pixel: ContinentPixel { side: Side::B, ix: 4, iy: 5 },
            continent_index: 1,
        }))
    );
    // from the other side of the border the nearest foreign cell is next door
    let from = ContinentPixel { side: Side::B, ix: 4, iy: 5 };
    let found = find_boundary(&cube, &kernel, from).unwrap().unwrap();
    assert_eq!(found.kernel_index, 2);
    assert_eq!(found.pixel, ContinentPixel { side: Side::B, ix: 3, iy: 5 });
    assert_eq!(found.continent_index, 0);
}

#[test]
fn boundary_search_looks_across_seams() {
    let cube = split_cube();
    let kernel = generate_kernel(4);
    // the right edge of the back face borders on the right face
    let from = ContinentPixel { side: Side::R, ix: 1, iy: 3 };
    let found = find_boundary(&cube, &kernel, from).unwrap().unwrap();
    assert_eq!(found.entry, KernelEntry { dx: -2, dy: 0, distance_squared: 4 });
    assert_eq!(found.pixel, ContinentPixel { side: Side::B, ix: 7, iy: 3 });
    // the upper face borders on the back face with its lower edge
    let from = ContinentPixel { side: Side::U, ix: 5, iy: 7 };
    let found = find_boundary(&cube, &kernel, from).unwrap().unwrap();
    assert_eq!(found.entry, KernelEntry { dx: 0, dy: 1, distance_squared: 1 });
    assert_eq!(found.pixel, ContinentPixel { side: Side::B, ix: 5, iy: 0 });
}

#[test]
fn no_boundary_within_reach_of_the_kernel() {
    let cube = split_cube();
    let kernel = generate_kernel(3);
    let from = ContinentPixel { side: Side::F, ix: 4, iy: 4 };
    assert_eq!(find_boundary(&cube, &kernel, from), Ok(None));
    assert_eq!(find_boundary(&cube, &Vec::new(), from), Ok(None));
}

#[test]
fn offsets_beyond_the_neighbouring_face_are_an_error() {
    let cube = split_cube();
    let far = KernelEntry { dx: -13, dy: 0, distance_squared: 169 };
    let near = KernelEntry { dx: 0, dy: 1, distance_squared: 1 };
    let from = ContinentPixel { side: Side::F, ix: 4, iy: 4 };
    assert_eq!(
        find_boundary(&cube, &vec![near, far], from),
        Err(Unreachable { kernel_index: 1, entry: far })
    );
    assert_eq!(probe_entry(&cube, from, far), Probe::Unreachable);
    assert_eq!(probe_entry(&cube, from, near), Probe::Same);
}

#[test]
fn offsets_across_a_corner_are_skipped() {
    let cube = split_cube();
    let from = ContinentPixel { side: Side::B, ix: 7, iy: 0 };
    let diagonal = KernelEntry { dx: 1, dy: -1, distance_squared: 2 };
    let zero = KernelEntry { dx: 0, dy: 0, distance_squared: 0 };
    let left = KernelEntry { dx: -4, dy: 0, distance_squared: 16 };
    assert_eq!(probe_entry(&cube, from, diagonal), Probe::Skipped);
    assert_eq!(probe_entry(&cube, from, zero), Probe::Skipped);
    assert_eq!(
        probe_entry(&cube, from, left),
        Probe::Foreign(ContinentPixel { side: Side::B, ix: 3, iy: 0 })
    );
}
