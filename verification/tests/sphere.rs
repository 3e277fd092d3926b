use terrain_generator::side::Side;
use terrain_generator::sphere::{position_on_sphere, warp_axis, SpherePoint, MAX_SPHERE_WIDTH};
use terrain_generator::topology::position_on_cube;

const SIDES: [Side; 6] = [Side::L, Side::B, Side::R, Side::F, Side::U, Side::D];

fn root(square: i128, scale: i128) -> f64 {
    let length = f64::sqrt(square.unsigned_abs() as f64 / scale as f64);
    if square < 0 {
        -length
    } else {
        length
    }
}

#[test]
fn squares_of_a_warped_point() {
    // the point (-4, 2, -2) of the cube that reaches from -4 to 4
    assert_eq!(
        position_on_sphere((1, 3), 4, Side::L),
        SpherePoint { x: -18944, y: 2816, z: -2816, scale: 24576 }
    );
    // the middle of a face stays where it is
    assert_eq!(
        position_on_sphere((2, 2), 4, Side::U),
        SpherePoint { x: 0, y: 0, z: 24576, scale: 24576 }
    );
    // a corner of the cube: all three coordinates are equally long
    assert_eq!(
        position_on_sphere((0, 0), 4, Side::D),
        SpherePoint { x: -8192, y: -8192, z: -8192, scale: 24576 }
    );
    // the middle of an edge
    assert_eq!(
        position_on_sphere((0, 2), 4, Side::R),
        SpherePoint { x: 12288, y: -12288, z: 0, scale: 24576 }
    );
}

#[test]
fn one_warped_coordinate() {
    assert_eq!(warp_axis(-4, 2, -2, 4), -18944);
    assert_eq!(warp_axis(2, -4, -2, 4), 2816);
    assert_eq!(warp_axis(0, 3, 1, 4), 0);
    assert_eq!(warp_axis(1, 0, 0, 1), 6);
    assert_eq!(warp_axis(-1, 1, 1, 1), -2);
}

#[test]
fn sphere_projection_has_unit_length() {
    for width in [1usize, 2, 5, 16] {
        for side in SIDES {
            for iy in 0..=width {
                for ix in 0..=width {
                    let point = position_on_sphere((ix, iy), width, side);
                    assert_eq!(point.scale, 6 * (width as i128).pow(6));
                    assert_eq!(point.x.abs() + point.y.abs() + point.z.abs(), point.scale);
                    let sx = root(point.x, point.scale);
                    let sy = root(point.y, point.scale);
                    let sz = root(point.z, point.scale);
                    let norm = f64::sqrt(sx * sx + sy * sy + sz * sz);
                    assert!((norm - 1.0).abs() < 1e-12);
                }
            }
        }
    }
}

#[test]
fn squares_agree_with_the_roots_formula() {
    let width = 16usize;
    for side in SIDES {
        for iy in 0..width {
            for ix in 0..width {
                let (px, py, pz) = position_on_cube((ix, iy), width, side);
                let x = px as f64 / width as f64;
                let y = py as f64 / width as f64;
                let z = pz as f64 / width as f64;
                let sx = x * f64::sqrt(1.0 - y * y / 2.0 - z * z / 2.0 + y * y * z * z / 3.0);
                let sy = y * f64::sqrt(1.0 - x * x / 2.0 - z * z / 2.0 + x * x * z * z / 3.0);
                let sz = z * f64::sqrt(1.0 - x * x / 2.0 - y * y / 2.0 + x * x * y * y / 3.0);
                let point = position_on_sphere((ix, iy), width, side);
                assert!((root(point.x, point.scale) - sx).abs() < 1e-12);
                assert!((root(point.y, point.scale) - sy).abs() < 1e-12);
                assert!((root(point.z, point.scale) - sz).abs() < 1e-12);
            }
        }
    }
}

#[test]
fn widest_face_fits() {
    let width = MAX_SPHERE_WIDTH;
    assert_eq!(width, 1 << 20);
    let corner = position_on_sphere((0, 0), width, Side::L);
    assert_eq!(corner.scale, 6i128 << 120);
    assert_eq!(corner, SpherePoint { x: -(1i128 << 121), y: 1i128 << 121, z: 1i128 << 121, scale: 6i128 << 120 });
    let middle = position_on_sphere((width / 2, width / 2), width, Side::F);
    assert_eq!(middle, SpherePoint { x: 0, y: 6i128 << 120, z: 0, scale: 6i128 << 120 });
}
