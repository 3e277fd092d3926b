use terrain_generator::continent::seed_continents;
use terrain_generator::grid::Cube;
use terrain_generator::growth::grow_continents;
use terrain_generator::plates::{draw_pairs, form_plates};
use terrain_generator::rng::{Rng, Seed};
use terrain_generator::side::Side;

const SIDES: [Side; 6] = [Side::L, Side::B, Side::R, Side::F, Side::U, Side::D];

#[test]
fn pairs_are_the_next_draws_in_order() {
    let mut rng = Rng::new(Seed((54u128 << 64) | 42));
    let pairs = draw_pairs(&mut rng, 3);
    assert_eq!(
        pairs,
        vec![(0xa15c02b7, 0x7b47f409), (0xba1d3330, 0x83d2f293), (0xbfa4784b, 0xcbed606e)]
    );
    let mut fresh = Rng::new(Seed((54u128 << 64) | 42));
    for _ in 0..6 {
        fresh.next_u32();
    }
    assert_eq!(rng.next_u32(), fresh.next_u32());
}

#[test]
fn no_pairs_leave_the_generator_alone() {
    let mut rng = Rng::new(Seed(5));
    let mut fresh = Rng::new(Seed(5));
    assert!(draw_pairs(&mut rng, 0).is_empty());
    assert_eq!(rng.next_u64(), fresh.next_u64());
}

#[test]
fn plates_are_seeding_then_pairs_then_growth() {
    for seed in [0u128, 1, 77, u128::MAX] {
        let width = 6;
        let count = 4;
        let mut rng = Rng::new(Seed(seed));
        let plates = form_plates(&mut rng, width, count, 3u8);

        let mut by_hand = Rng::new(Seed(seed));
        let mut cube = Cube::new(width, 3u8);
        let mut continents = seed_continents(&mut by_hand, width, count);
        let pairs = draw_pairs(&mut by_hand, count);
        let claimed = grow_continents(&mut cube, &mut continents, &mut by_hand);

        assert_eq!(claimed, 6 * width * width);
        assert_eq!(plates.axis_draws, pairs);
        assert_eq!(plates.continents.len(), count);
        for (made, expected) in plates.continents.iter().zip(continents.iter()) {
            assert_eq!(made.origin, expected.origin);
            assert!(made.discovered_pixels.is_empty());
        }
        for side in SIDES {
            for y in 0..width {
                for x in 0..width {
                    let cell = plates.cube.get(side, x, y);
                    assert_eq!(cell.height, 3);
                    assert!(cell.continent_index < count);
                    assert_eq!(cell.continent_index, cube.get(side, x, y).continent_index);
                }
            }
        }
        assert_eq!(rng.next_u64(), by_hand.next_u64());
    }
}

#[test]
fn equal_seeds_make_equal_plates() {
    let mut first_rng = Rng::new(Seed(2024));
    let mut second_rng = Rng::new(Seed(2024));
    let first = form_plates(&mut first_rng, 9, 3, 0i32);
    let second = form_plates(&mut second_rng, 9, 3, 0i32);
    assert_eq!(first.axis_draws, second.axis_draws);
    for side in SIDES {
        for y in 0..9 {
            for x in 0..9 {
                assert_eq!(
                    first.cube.get(side, x, y).continent_index,
                    second.cube.get(side, x, y).continent_index
                );
            }
        }
    }
    for i in 0..3 {
        assert_eq!(first.continents[i].origin, second.continents[i].origin);
    }
    assert_eq!(first_rng.next_u32(), second_rng.next_u32());
}

#[test]
fn plates_without_continents() {
    let mut rng = Rng::new(Seed(9));
    let plates = form_plates(&mut rng, 3, 0, 1u16);
    assert!(plates.continents.is_empty());
    assert!(plates.axis_draws.is_empty());
    for side in SIDES {
        for y in 0..3 {
            for x in 0..3 {
                assert_eq!(plates.cube.get(side, x, y).continent_index, usize::MAX);
            }
        }
    }
}
