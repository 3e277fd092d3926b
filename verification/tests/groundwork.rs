use terrain_generator::boundary::find_boundary;
use terrain_generator::config::{ConfigError, Layout};
use terrain_generator::grid::ContinentPixel;
use terrain_generator::groundwork::lay_groundwork;
use terrain_generator::kernel::generate_kernel;
use terrain_generator::plates::form_plates;
use terrain_generator::rng::{Rng, Seed};
use terrain_generator::side::Side;
use terrain_generator::stride::erosion_stride;

const SIDES: [Side; 6] = [Side::L, Side::B, Side::R, Side::F, Side::U, Side::D];

#[test]
fn groundwork_of_a_small_planet() {
    let layout = Layout { width: 5, continent_count: 1, kernel_radius: 3, fractal_main_layer: 2 };
    let mut rng = Rng::new(Seed(11));
    let work = lay_groundwork(&layout, &mut rng, 0u8).unwrap();

    for side in SIDES {
        for y in 0..5 {
            for x in 0..5 {
                assert_eq!(work.plates.cube.get(side, x, y).continent_index, 0);
            }
        }
    }
    assert_eq!(work.kernel, generate_kernel(3));
    assert_eq!(work.kernel.len(), 25);
    assert_eq!(work.octaves, vec![2, 4]);
    assert_eq!(work.stride, 241);
    assert_eq!(work.stride, erosion_stride(150));
    assert!(work.first_drop < 150);
}

#[test]
fn groundwork_draws_the_plates_and_then_the_first_drop() {
    let layout = Layout { width: 9, continent_count: 3, kernel_radius: 4, fractal_main_layer: 1 };
    let mut rng = Rng::new(Seed(31337));
    let work = lay_groundwork(&layout, &mut rng, 0i64).unwrap();

    let mut by_hand = Rng::new(Seed(31337));
    let plates = form_plates(&mut by_hand, 9, 3, 0i64);
    let first_drop = by_hand.next_index(486);

    assert_eq!(work.first_drop, first_drop);
    assert_eq!(work.plates.axis_draws, plates.axis_draws);
    for side in SIDES {
        for y in 0..9 {
            for x in 0..9 {
                assert_eq!(
                    work.plates.cube.get(side, x, y).continent_index,
                    plates.cube.get(side, x, y).continent_index
                );
            }
        }
    }
    assert_eq!(work.octaves, vec![2, 4, 8]);
    assert_eq!(rng.next_u64(), by_hand.next_u64());
}

#[test]
fn the_search_for_a_boundary_never_fails_on_groundwork() {
    let layout = Layout { width: 6, continent_count: 5, kernel_radius: 6, fractal_main_layer: 0 };
    let mut rng = Rng::new(Seed(8));
    let work = lay_groundwork(&layout, &mut rng, ()).unwrap();
    for side in SIDES {
        for iy in 0..6 {
            for ix in 0..6 {
                let here = ContinentPixel { side, ix, iy };
                let found = find_boundary(&work.plates.cube, &work.kernel, here);
                assert!(found.is_ok());
                if let Ok(Some(boundary)) = found {
                    assert_ne!(
                        boundary.continent_index,
                        work.plates.cube.get(side, ix, iy).continent_index
                    );
                }
            }
        }
    }
}

#[test]
fn a_configuration_that_is_turned_down_draws_nothing() {
    let mut rng = Rng::new(Seed(4));
    let mut untouched = Rng::new(Seed(4));
    let cases = [
        (Layout { width: 1, continent_count: 1, kernel_radius: 1, fractal_main_layer: 0 }, ConfigError::WidthTooSmall),
        (Layout { width: 1 << 21, continent_count: 1, kernel_radius: 1, fractal_main_layer: 0 }, ConfigError::WidthTooLarge),
        (Layout { width: 4, continent_count: 0, kernel_radius: 1, fractal_main_layer: 0 }, ConfigError::NoContinents),
        (Layout { width: 4, continent_count: 97, kernel_radius: 1, fractal_main_layer: 0 }, ConfigError::TooManyContinents),
        (Layout { width: 4, continent_count: 9, kernel_radius: 5, fractal_main_layer: 0 }, ConfigError::KernelTooWide),
        (Layout { width: 4, continent_count: 9, kernel_radius: 4, fractal_main_layer: usize::MAX }, ConfigError::MainLayerTooHigh),
    ];
    for (layout, expected) in cases {
        match lay_groundwork(&layout, &mut rng, 0u8) {
            Ok(_) => panic!("accepted {:?}", layout),
            Err(e) => assert_eq!(e, expected),
        }
    }
    assert_eq!(rng.next_u64(), untouched.next_u64());
}

#[test]
fn equal_seeds_lay_equal_groundwork() {
    let layout = Layout { width: 8, continent_count: 4, kernel_radius: 5, fractal_main_layer: 1 };
    let mut first_rng = Rng::new(Seed(99));
    let mut second_rng = Rng::new(Seed(99));
    let first = lay_groundwork(&layout, &mut first_rng, 2u32).unwrap();
    let second = lay_groundwork(&layout, &mut second_rng, 2u32).unwrap();
    assert_eq!(first.kernel, second.kernel);
    assert_eq!(first.octaves, second.octaves);
    assert_eq!(first.first_drop, second.first_drop);
    assert_eq!(first.stride, second.stride);
    assert_eq!(first.plates.axis_draws, second.plates.axis_draws);
    for i in 0..4 {
        assert_eq!(first.plates.continents[i].origin, second.plates.continents[i].origin);
    }
    for side in SIDES {
        for y in 0..8 {
            for x in 0..8 {
                let a = first.plates.cube.get(side, x, y);
                let b = second.plates.cube.get(side, x, y);
                assert_eq!((a.height, a.continent_index), (b.height, b.continent_index));
            }
        }
    }
    assert_eq!(first_rng.next_u64(), second_rng.next_u64());
}
