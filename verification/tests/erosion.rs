use terrain_generator::erosion::ErosionKernelOrigin;
use terrain_generator::rotation::Rotation;

const NW: ErosionKernelOrigin = ErosionKernelOrigin::NW;
const NE: ErosionKernelOrigin = ErosionKernelOrigin::NE;
const SW: ErosionKernelOrigin = ErosionKernelOrigin::SW;
const SE: ErosionKernelOrigin = ErosionKernelOrigin::SE;

fn cw(mut eko: ErosionKernelOrigin) -> ErosionKernelOrigin {
    eko.rotate_cw();
    eko
}

fn ccw(mut eko: ErosionKernelOrigin) -> ErosionKernelOrigin {
    eko.rotate_ccw();
    eko
}

fn half(mut eko: ErosionKernelOrigin) -> ErosionKernelOrigin {
    eko.rotate_180();
    eko
}

#[test]
fn kernel_origin_turns_clockwise() {
    assert_eq!(cw(NW), NE);
    assert_eq!(cw(NE), SE);
    assert_eq!(cw(SE), SW);
    assert_eq!(cw(SW), NW);
}

#[test]
fn kernel_origin_turns_counter_clockwise() {
    assert_eq!(ccw(NW), SW);
    assert_eq!(ccw(SW), SE);
    assert_eq!(ccw(SE), NE);
    assert_eq!(ccw(NE), NW);
}

#[test]
fn kernel_origin_turns_half() {
    assert_eq!(half(NW), SE);
    assert_eq!(half(NE), SW);
    assert_eq!(half(SW), NE);
    assert_eq!(half(SE), NW);
}

#[test]
fn kernel_origin_turns_with_a_seam_and_back() {
    for origin in [NW, NE, SW, SE] {
        for turn in [
            Rotation::Identity,
            Rotation::Clockwise,
            Rotation::Half,
            Rotation::CounterClockwise,
        ] {
            let mut eko = origin;
            eko.rotate(turn);
            match turn {
                Rotation::Identity => assert_eq!(eko, origin),
                Rotation::Clockwise => assert_eq!(eko, cw(origin)),
                Rotation::Half => assert_eq!(eko, half(origin)),
                Rotation::CounterClockwise => assert_eq!(eko, ccw(origin)),
            }
            eko.rotate(turn.inverse());
            assert_eq!(eko, origin);
        }
    }
    assert_eq!(ErosionKernelOrigin::default(), NW);
}

#[test]
fn sampled_block() {
    assert_eq!(NW.sample_offsets(), [(0, 0), (1, 0), (0, 1), (1, 1)]);
    assert_eq!(NE.sample_offsets(), [(-1, 0), (0, 0), (-1, 1), (0, 1)]);
    assert_eq!(SW.sample_offsets(), [(0, -1), (1, -1), (0, 0), (1, 0)]);
    assert_eq!(SE.sample_offsets(), [(-1, -1), (0, -1), (-1, 0), (0, 0)]);
}
