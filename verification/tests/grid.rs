use terrain_generator::grid::{
    ContinentPixel, Cube, ProtoHeightMap, ProtoHeightMapValue, UNASSIGNED,
};
use terrain_generator::side::Side;

#[test]
fn new_map_is_flat_and_unclaimed() {
    let map = ProtoHeightMap::new(Side::F, 3, 0.0f32);
    assert_eq!(map.side, Side::F);
    assert_eq!(map.width, 3);
    assert_eq!(map.values.len(), 9);
    for value in map.values.iter() {
        assert_eq!(value.height, 0.0);
        assert_eq!(value.continent_index, UNASSIGNED);
    }
    assert_eq!(ProtoHeightMap::new(Side::L, 0, 1u8).values.len(), 0);
}

#[test]
fn cells_are_stored_row_by_row() {
    let mut map = ProtoHeightMap::new(Side::L, 4, 0i32);
    assert_eq!(map.index(0, 0), 0);
    assert_eq!(map.index(3, 0), 3);
    assert_eq!(map.index(1, 2), 9);
    map.set(1, 2, ProtoHeightMapValue { height: 7, continent_index: 3 });
    assert_eq!(map.values[9].height, 7);
    assert_eq!(map.get(1, 2).height, 7);
    assert_eq!(map.get(1, 2).continent_index, 3);
    assert_eq!(map.get(2, 1).height, 0);
    assert_eq!(map.get(2, 1).continent_index, UNASSIGNED);
}

#[test]
fn try_get_gives_the_cells_of_the_face_and_no_others() {
    let mut map = ProtoHeightMap::new(Side::L, 4, 0i32);
    map.set(1, 2, ProtoHeightMapValue { height: 7, continent_index: 3 });
    assert_eq!(map.try_get(1, 2).map(|v| v.height), Some(7));
    assert_eq!(map.try_get(1, 2).map(|v| v.continent_index), Some(3));
    // column 5 of row 1 would be position 9, where the cell (1, 2) is kept
    assert!(map.try_get(5, 1).is_none());
    assert!(map.try_get(4, 0).is_none());
    assert!(map.try_get(0, 4).is_none());
    assert!(map.try_get(16, 0).is_none());
    assert!(map.try_get(usize::MAX, 1).is_none());
    assert!(map.try_get(1, usize::MAX).is_none());
    for y in 0..4 {
        for x in 0..4 {
            let found = map.try_get(x, y).map(|v| (v.height, v.continent_index));
            assert_eq!(found, Some((map.get(x, y).height, map.get(x, y).continent_index)));
        }
    }
    assert_eq!(map.values.len(), 16);
}

#[test]
fn try_get_on_a_grid_that_is_too_short() {
    let mut map = ProtoHeightMap::new(Side::B, 3, 1u8);
    map.values.truncate(5);
    assert_eq!(map.try_get(1, 1).map(|v| v.height), Some(1));
    assert!(map.try_get(2, 1).is_none());
    assert!(map.try_get(0, 2).is_none());
    assert!(map.try_get(3, 0).is_none());
}

#[test]
fn cube_keeps_its_faces_apart() {
    let mut cube = Cube::new(3, 0u8);
    assert_eq!(cube.side_width(), 3);
    cube.set(Side::U, 2, 1, ProtoHeightMapValue { height: 9, continent_index: 1 });
    for side in [Side::L, Side::B, Side::R, Side::F, Side::U, Side::D] {
        assert_eq!(cube.face_of(side).side, side);
        for y in 0..3 {
            for x in 0..3 {
                let value = cube.get(side, x, y);
                if side == Side::U && x == 2 && y == 1 {
                    assert_eq!((value.height, value.continent_index), (9, 1));
                } else {
                    assert_eq!((value.height, value.continent_index), (0, UNASSIGNED));
                }
            }
        }
    }
}

#[test]
fn linear_positions() {
    let pixel = ContinentPixel { side: Side::R, ix: 1, iy: 2 };
    // two faces of 16 cells, two rows of 4 cells, one cell
    assert_eq!(pixel.to_linear(4), 41);
    assert_eq!(ContinentPixel::from_linear(41, 4), pixel);
    assert_eq!(ContinentPixel::from_linear(0, 4), ContinentPixel::default());
    assert_eq!(
        ContinentPixel::from_linear(95, 4),
        ContinentPixel { side: Side::D, ix: 3, iy: 3 }
    );
    for i in 0..150 {
        assert_eq!(ContinentPixel::from_linear(i, 5).to_linear(5), i);
    }
}
