use terrain_generator::noise::{
    apply_net, lattice_square, octave_divisor, octave_widths, random_gradient, Basis, LatticePoint,
};
use terrain_generator::rng::Seed;
use terrain_generator::rotation::Rotation;
use terrain_generator::side::Side;

fn at(side: Side, ix: i32, iy: i32) -> (i32, i32, Basis) {
    let LatticePoint { x, y, basis } = apply_net(side, ix, iy, 4);
    (x, y, basis)
}

const SAME: Basis = Basis::Turned(Rotation::Identity);
const CW: Basis = Basis::Turned(Rotation::Clockwise);
const CCW: Basis = Basis::Turned(Rotation::CounterClockwise);
const HALF: Basis = Basis::Turned(Rotation::Half);

#[test]
fn inner_lattice_points_lie_side_by_side_in_the_plane() {
    assert_eq!(at(Side::L, 1, 2), (1, 2, SAME));
    assert_eq!(at(Side::B, 1, 2), (5, 2, SAME));
    assert_eq!(at(Side::R, 1, 2), (9, 2, SAME));
    assert_eq!(at(Side::F, 1, 2), (13, 2, SAME));
    assert_eq!(at(Side::U, 1, 2), (5, -2, SAME));
    assert_eq!(at(Side::D, 1, 2), (5, 6, SAME));
}

#[test]
fn corners_count_as_zero() {
    for side in [Side::L, Side::B, Side::R, Side::F, Side::U, Side::D] {
        for (ix, iy) in [(0, 0), (4, 0), (0, 4), (4, 4)] {
            assert_eq!(at(side, ix, iy).2, Basis::Zero);
        }
    }
    assert_eq!(at(Side::U, 4, 0), (8, -4, Basis::Zero));
    assert_eq!(at(Side::D, 0, 4), (4, 8, Basis::Zero));
}

#[test]
fn edges_with_a_partner_take_its_index() {
    assert_eq!(at(Side::F, 4, 3), (0, 3, SAME));
    assert_eq!(at(Side::U, 0, 3), (3, 0, CW));
    assert_eq!(at(Side::U, 4, 3), (9, 0, CCW));
    assert_eq!(at(Side::U, 3, 0), (13, 0, HALF));
    assert_eq!(at(Side::D, 0, 3), (1, 4, CCW));
    assert_eq!(at(Side::D, 4, 3), (11, 4, CW));
    assert_eq!(at(Side::D, 3, 4), (13, 4, HALF));
}

#[test]
fn edges_without_a_partner_keep_their_own_index() {
    assert_eq!(at(Side::L, 0, 3), (0, 3, SAME));
    assert_eq!(at(Side::L, 4, 3), (4, 3, SAME));
    assert_eq!(at(Side::B, 0, 3), (4, 3, SAME));
    assert_eq!(at(Side::U, 3, 4), (7, 0, SAME));
    assert_eq!(at(Side::D, 3, 0), (7, 4, SAME));
    assert_eq!(at(Side::F, 0, 3), (12, 3, SAME));
    assert_eq!(at(Side::R, 3, 0), (11, 0, SAME));
}

#[test]
fn faces_agree_on_the_index_of_shared_lattice_points() {
    for t in 1..4 {
        // upper face, left edge <-> left face, upper edge
        assert_eq!(at(Side::U, 0, t).0, at(Side::L, t, 0).0);
        assert_eq!(at(Side::U, 0, t).1, at(Side::L, t, 0).1);
        // upper face, right edge <-> right face, upper edge, against the grain
        assert_eq!((at(Side::U, 4, t).0, at(Side::U, 4, t).1), {
            let p = at(Side::R, 4 - t, 0);
            (p.0, p.1)
        });
        // lower face, lower edge <-> front face, lower edge, against the grain
        assert_eq!((at(Side::D, t, 4).0, at(Side::D, t, 4).1), {
            let p = at(Side::F, 4 - t, 4);
            (p.0, p.1)
        });
        // front face, right edge <-> left face, left edge
        assert_eq!((at(Side::F, 4, t).0, at(Side::F, 4, t).1), {
            let p = at(Side::L, 0, t);
            (p.0, p.1)
        });
        // back face, lower edge <-> lower face, upper edge
        assert_eq!((at(Side::B, t, 4).0, at(Side::B, t, 4).1), {
            let p = at(Side::D, t, 0);
            (p.0, p.1)
        });
    }
}

#[test]
fn bases_as_matrices() {
    assert_eq!(Basis::Zero.columns(), ((0, 0), (0, 0)));
    assert_eq!(SAME.columns(), ((1, 0), (0, 1)));
    assert_eq!(CW.columns(), ((0, 1), (-1, 0)));
    assert_eq!(CCW.columns(), ((0, -1), (1, 0)));
    assert_eq!(HALF.columns(), ((-1, 0), (0, -1)));
}

#[test]
fn gradient_directions() {
    assert_eq!(random_gradient(0, 0, Seed(0)), 0);
    assert_eq!(random_gradient(1, 2, Seed(0)), 1341445860);
    assert_eq!(random_gradient(-1, 5, Seed(0x1234567890abcdef)), 3112026425);
    assert_eq!(random_gradient(7, -3, Seed((54u128 << 64) | 42)), 2970416891);
    // only the low 64 bits of the seed count
    assert_eq!(
        random_gradient(7, -3, Seed(42)),
        random_gradient(7, -3, Seed((54u128 << 64) | 42))
    );
    assert_ne!(random_gradient(7, -3, Seed(42)), random_gradient(7, -3, Seed(43)));
}

#[test]
fn octaves() {
    assert_eq!(octave_widths(0), Vec::<usize>::new());
    assert_eq!(octave_widths(2), Vec::<usize>::new());
    assert_eq!(octave_widths(3), vec![2]);
    assert_eq!(octave_widths(9), vec![2, 4, 8]);
    assert_eq!(octave_widths(256), vec![2, 4, 8, 16, 32, 64, 128]);
    assert_eq!(octave_widths(257), vec![2, 4, 8, 16, 32, 64, 128, 256]);
    assert_eq!(octave_widths(usize::MAX).len(), usize::BITS as usize - 1);
    assert_eq!(octave_divisor(2, 2), 1);
    assert_eq!(octave_divisor(0, 2), 3);
    assert_eq!(octave_divisor(5, 2), 4);
}

#[test]
fn lattice_squares() {
    let row: Vec<usize> = (0..9).map(|i| lattice_square(i, 9, 4)).collect();
    assert_eq!(row, vec![0, 0, 1, 1, 2, 2, 2, 3, 3]);
    assert_eq!(lattice_square(63, 256, 2), 0);
    assert_eq!(lattice_square(127, 256, 2), 0);
    assert_eq!(lattice_square(128, 256, 2), 1);
    assert_eq!(lattice_square(255, 256, 2), 1);
    assert_eq!(lattice_square(0, 1, 1), 0);
}
