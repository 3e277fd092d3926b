use terrain_generator::rotation::Rotation;
use terrain_generator::side::Side;
use terrain_generator::topology::{
    back_edge, cross_edge, seam_across, position_on_cube, remap_erosion_index, step, Crossing,
    CrossingError, Edge,
};

const SIDES: [Side; 6] = [Side::L, Side::B, Side::R, Side::F, Side::U, Side::D];
const EDGES: [Edge; 4] = [Edge::Left, Edge::Right, Edge::Up, Edge::Down];

fn remap(side: Side, x: isize, y: isize) -> ((usize, usize), Side) {
    match remap_erosion_index((x, y), 8, side) {
        Ok(cell) => cell,
        Err(_) => panic!("corner"),
    }
}

#[test]
fn remap_stays_in_face() {
    for side in SIDES {
        assert_eq!(remap(side, 0, 0), ((0, 0), side));
        assert_eq!(remap(side, 7, 2), ((7, 2), side));
    }
}

#[test]
fn remap_across_left_edge() {
    assert_eq!(remap(Side::L, -2, 3), ((6, 3), Side::F));
    assert_eq!(remap(Side::B, -2, 3), ((6, 3), Side::L));
    assert_eq!(remap(Side::R, -2, 3), ((6, 3), Side::B));
    assert_eq!(remap(Side::F, -2, 3), ((6, 3), Side::R));
    assert_eq!(remap(Side::U, -2, 3), ((3, 1), Side::L));
    assert_eq!(remap(Side::D, -2, 3), ((4, 6), Side::L));
}

#[test]
fn remap_across_right_edge() {
    assert_eq!(remap(Side::L, 9, 3), ((1, 3), Side::B));
    assert_eq!(remap(Side::B, 9, 3), ((1, 3), Side::R));
    assert_eq!(remap(Side::R, 9, 3), ((1, 3), Side::F));
    assert_eq!(remap(Side::F, 9, 3), ((1, 3), Side::L));
    assert_eq!(remap(Side::U, 9, 3), ((4, 1), Side::R));
    assert_eq!(remap(Side::D, 9, 3), ((3, 6), Side::R));
}

#[test]
fn remap_across_upper_edge() {
    assert_eq!(remap(Side::L, 3, -2), ((1, 3), Side::U));
    assert_eq!(remap(Side::B, 3, -2), ((3, 6), Side::U));
    assert_eq!(remap(Side::R, 3, -2), ((6, 4), Side::U));
    assert_eq!(remap(Side::F, 3, -2), ((4, 1), Side::U));
    assert_eq!(remap(Side::U, 3, -2), ((4, 1), Side::F));
    assert_eq!(remap(Side::D, 3, -2), ((3, 6), Side::B));
}

#[test]
fn remap_across_lower_edge() {
    assert_eq!(remap(Side::L, 3, 9), ((1, 4), Side::D));
    assert_eq!(remap(Side::B, 3, 9), ((3, 1), Side::D));
    assert_eq!(remap(Side::R, 3, 9), ((6, 3), Side::D));
    assert_eq!(remap(Side::F, 3, 9), ((4, 6), Side::D));
    assert_eq!(remap(Side::U, 3, 9), ((3, 1), Side::B));
    assert_eq!(remap(Side::D, 3, 9), ((4, 6), Side::F));
}

#[test]
fn remap_at_corner_gives_both_neighbours() {
    // diagonally across the upper left corner of the back face lie the
    // left face (sideways) and the upper face (upwards)
    assert_eq!(
        remap_erosion_index((-1, -1), 8, Side::B),
        Err((((7, 0), Side::L), ((0, 7), Side::U)))
    );
    assert_eq!(
        remap_erosion_index((8, 8), 8, Side::B),
        Err((((0, 7), Side::R), ((7, 0), Side::D)))
    );
}

#[test]
fn cross_edge_reports_why_there_is_no_cell() {
    assert_eq!(cross_edge(Side::U, -1, -1, 8), Err(CrossingError::Corner));
    assert_eq!(cross_edge(Side::U, 8, -3, 8), Err(CrossingError::Corner));
    assert_eq!(cross_edge(Side::U, -9, 3, 8), Err(CrossingError::OutOfReach));
    assert_eq!(cross_edge(Side::U, 3, 16, 8), Err(CrossingError::OutOfReach));
    assert_eq!(
        cross_edge(Side::U, -8, 3, 8),
        Ok(Crossing { side: Side::L, x: 3, y: 7, turn: Rotation::CounterClockwise })
    );
    assert_eq!(cross_edge(Side::L, 0, 0, 0), Err(CrossingError::Corner));
}

#[test]
fn seam_table() {
    let turn = |side, edge| {
        let seam = seam_across(side, edge);
        (seam.side, seam.turn)
    };
    assert_eq!(turn(Side::U, Edge::Left), (Side::L, Rotation::CounterClockwise));
    assert_eq!(turn(Side::D, Edge::Left), (Side::L, Rotation::Clockwise));
    assert_eq!(turn(Side::U, Edge::Right), (Side::R, Rotation::Clockwise));
    assert_eq!(turn(Side::D, Edge::Right), (Side::R, Rotation::CounterClockwise));
    assert_eq!(turn(Side::L, Edge::Up), (Side::U, Rotation::Clockwise));
    assert_eq!(turn(Side::R, Edge::Up), (Side::U, Rotation::CounterClockwise));
    assert_eq!(turn(Side::F, Edge::Up), (Side::U, Rotation::Half));
    assert_eq!(turn(Side::U, Edge::Up), (Side::F, Rotation::Half));
    assert_eq!(turn(Side::L, Edge::Down), (Side::D, Rotation::CounterClockwise));
    assert_eq!(turn(Side::R, Edge::Down), (Side::D, Rotation::Clockwise));
    assert_eq!(turn(Side::F, Edge::Down), (Side::D, Rotation::Half));
    assert_eq!(turn(Side::D, Edge::Down), (Side::F, Rotation::Half));
    assert_eq!(turn(Side::B, Edge::Up), (Side::U, Rotation::Identity));
    assert_eq!(turn(Side::B, Edge::Down), (Side::D, Rotation::Identity));
    assert_eq!(turn(Side::U, Edge::Down), (Side::B, Rotation::Identity));
    assert_eq!(turn(Side::D, Edge::Up), (Side::B, Rotation::Identity));
    assert_eq!(turn(Side::L, Edge::Left), (Side::F, Rotation::Identity));
    assert_eq!(turn(Side::F, Edge::Right), (Side::L, Rotation::Identity));
}

#[test]
fn crossing_out_and_back_is_the_identity() {
    let width = 5;
    for side in SIDES {
        for edge in EDGES {
            for along in 0..width {
                let (x, y) = match edge {
                    Edge::Left => (0, along),
                    Edge::Right => (width - 1, along),
                    Edge::Up => (along, 0),
                    Edge::Down => (along, width - 1),
                };
                let out = step(side, x, y, edge, width);
                let back = step(out.side, out.x, out.y, back_edge(side, edge), width);
                assert_eq!((back.side, back.x, back.y), (side, x, y));
                assert_eq!(out.turn.compose(back.turn), Rotation::Identity);
                assert_ne!(out.side, side);
            }
        }
    }
}

#[test]
fn steps_inside_a_face() {
    let to = step(Side::R, 3, 4, Edge::Left, 8);
    assert_eq!((to.side, to.x, to.y, to.turn), (Side::R, 2, 4, Rotation::Identity));
    let to = step(Side::R, 3, 4, Edge::Down, 8);
    assert_eq!((to.side, to.x, to.y), (Side::R, 3, 5));
    // from the lowest row of the lower face one comes to the lowest row of
    // the front face
    let to = step(Side::D, 1, 7, Edge::Down, 8);
    assert_eq!((to.side, to.x, to.y), (Side::F, 6, 7));
}

#[test]
fn edges_turn_and_oppose() {
    assert_eq!(Edge::Left.opposite(), Edge::Right);
    assert_eq!(Edge::Up.opposite(), Edge::Down);
    assert_eq!(Edge::Right.turned(Rotation::Clockwise), Edge::Down);
    assert_eq!(Edge::Down.turned(Rotation::Clockwise), Edge::Left);
    assert_eq!(Edge::Left.turned(Rotation::Half), Edge::Right);
    assert_eq!(Edge::Up.turned(Rotation::CounterClockwise), Edge::Left);
    assert_eq!(back_edge(Side::U, Edge::Left), Edge::Up);
    assert_eq!(back_edge(Side::L, Edge::Up), Edge::Left);
    assert_eq!(back_edge(Side::D, Edge::Down), Edge::Down);
}

#[test]
fn rotations() {
    assert_eq!(Rotation::Clockwise.apply(1, 0), (0, 1));
    assert_eq!(Rotation::CounterClockwise.apply(1, 0), (0, -1));
    assert_eq!(Rotation::Half.apply(3, -4), (-3, 4));
    assert_eq!(Rotation::Identity.apply(3, -4), (3, -4));
    assert_eq!(Rotation::Clockwise.compose(Rotation::Clockwise), Rotation::Half);
    assert_eq!(Rotation::Clockwise.compose(Rotation::CounterClockwise), Rotation::Identity);
    assert_eq!(Rotation::Half.compose(Rotation::Clockwise), Rotation::CounterClockwise);
    assert_eq!(Rotation::Clockwise.inverse(), Rotation::CounterClockwise);
    assert_eq!(Rotation::Half.inverse(), Rotation::Half);
    assert_eq!(Rotation::from_quarter_turns(7), Rotation::CounterClockwise);
    assert_eq!(Rotation::CounterClockwise.to_quarter_turns(), 3);
}

#[test]
fn cube_positions() {
    assert_eq!(position_on_cube((0, 0), 4, Side::L), (-4, 4, 4));
    assert_eq!(position_on_cube((1, 3), 4, Side::L), (-4, 2, -2));
    assert_eq!(position_on_cube((1, 3), 4, Side::B), (-2, -4, -2));
    assert_eq!(position_on_cube((1, 3), 4, Side::R), (4, -2, -2));
    assert_eq!(position_on_cube((1, 3), 4, Side::F), (2, 4, -2));
    assert_eq!(position_on_cube((1, 3), 4, Side::U), (-2, -2, 4));
    assert_eq!(position_on_cube((1, 3), 4, Side::D), (-2, 2, -4));
}

#[test]
fn neighbouring_faces_meet_on_the_cube() {
    // the right edge of the left face is the left edge of the back face
    for y in 0..=4 {
        assert_eq!(
            position_on_cube((4, y), 4, Side::L),
            position_on_cube((0, y), 4, Side::B)
        );
        // the left edge of the upper face is the upper edge of the left face
        assert_eq!(
            position_on_cube((0, y), 4, Side::U),
            position_on_cube((y, 0), 4, Side::L)
        );
        // the lower edge of the lower face is the lower edge of the front face
        assert_eq!(
            position_on_cube((y, 4), 4, Side::D),
            position_on_cube((4 - y, 4), 4, Side::F)
        );
    }
}
