//! From the state of the random generator to the finished plates.

use vstd::prelude::*;
use crate::continent::{
    claims,
    is_claimed,
    seed_continents,
    starting_positions,
    Continent,
};
use crate::grid::{cell_count, ContinentPixel, Cube, UNASSIGNED};
use crate::growth::{covered, frontiers_empty, grow_continents, growth_of, grown, unclaimed, Growth};
use crate::region::contiguous;
use crate::rng::{Rng, RngState};

verus! {

/// The plates of a planet: the cube with every cell given to a continent,
/// the continents, and for every continent the two random numbers from which
/// the axis is made that its plate turns about.
pub struct Plates<H> {
    pub cube: Cube<H>,
    pub continents: Vec<Continent>,
    pub axis_draws: Vec<(u32, u32)>,
}

/// The first `count` pairs of numbers drawn from a generator in the given
/// state, and the state afterwards.
pub open spec fn drawn_pairs(state: RngState, count: nat) -> (Seq<(u32, u32)>, RngState)
    decreases count,
{
    if count == 0 {
        (Seq::empty(), state)
    } else {
        let (before, then) = drawn_pairs(state, (count - 1) as nat);
        (before.push((then.output(), then.advanced().output())), then.advanced().advanced())
    }
}

/// The claims on a cube of which no cell belongs to a continent.
pub open spec fn no_claims(width: int) -> Map<ContinentPixel, usize> {
    Map::new(|pixel: ContinentPixel| pixel.valid(width), |pixel: ContinentPixel| UNASSIGNED)
}

/// What a generator in the given state makes of a cube of the given width
/// and `count` continents: the cells the continents start from, the pairs of
/// numbers for their axes, and the growth when it has come to its end.
///
/// First the starting cells are drawn, then the pairs, and then the
/// continents grow.
pub open spec fn plates_from(state: RngState, width: usize, count: nat) -> (
    Seq<ContinentPixel>,
    Seq<(u32, u32)>,
    Growth,
) {
    let (origins, seeded) = starting_positions(state, width, count);
    let (pairs, drawn) = drawn_pairs(seeded, count);
    let start = Growth {
        claims: no_claims(width as int),
        frontiers: Seq::new(count, |i: int| seq![origins[i]]),
        state: drawn,
    };
    (origins, pairs, grown(start, width as int, (cell_count(width as int) + 1) as nat))
}

/// `plates` and the state `after` are what a generator in the state `before`
/// makes of a cube of the given width and `count` continents.
pub open spec fn made_from<H: Copy>(
    plates: Plates<H>,
    after: RngState,
    before: RngState,
    width: usize,
    count: nat,
) -> bool {
    let (origins, pairs, growth) = plates_from(before, width, count);
    &&& plates.cube.width() == width
    &&& plates.continents@.len() == count
    &&& forall|i: int| 0 <= i < count ==> (#[trigger] plates.continents@[i]).origin == origins[i]
    &&& plates.axis_draws@ == pairs
    &&& growth_of(plates.cube, plates.continents@, after) == growth
}

/// Draws `count` pairs of numbers.
pub fn draw_pairs(rng: &mut Rng, count: usize) -> (pairs: Vec<(u32, u32)>)
    ensures
        (pairs@, final(rng)@) == drawn_pairs(old(rng)@, count as nat),
{
    let mut pairs: Vec<(u32, u32)> = Vec::with_capacity(count);
    let mut i: usize = 0;
    while i < count
        invariant
            i <= count,
            (pairs@, rng@) == drawn_pairs(old(rng)@, i as nat),
        decreases count - i,
    {
        let first = rng.next_u32();
        let second = rng.next_u32();
        pairs.push((first, second));
        i += 1;
    }
    pairs
}

/// Divides a new cube of the given width, every cell of the given height,
/// among `continent_count` continents.
///
/// The continents start at different cells drawn at random, and grow from
/// there, cell by cell, until the cube is covered. What comes out depends on
/// the state of the generator, the width and the number of continents, and
/// on nothing else.
pub fn form_plates<H: Copy>(rng: &mut Rng, width: usize, continent_count: usize, height: H) -> (plates:
    Plates<H>)
    requires
        cell_count(width as int) <= usize::MAX,
        continent_count <= cell_count(width as int),
    ensures
        plates.cube.wf(),
        made_from(plates, final(rng)@, old(rng)@, width, continent_count as nat),
        forall|pixel: ContinentPixel|
            pixel.valid(width as int) ==> (#[trigger] plates.cube.at(pixel)).height == height,
        frontiers_empty(plates.continents@),
        contiguous(plates.cube, plates.continents@),
        continent_count > 0 ==> covered(plates.cube, continent_count as int),
        continent_count == 0 ==> unclaimed(plates.cube),
{
    assert(width * width <= usize::MAX) by (nonlinear_arith)
        requires
            6 * (width * width) <= usize::MAX,
    ;
    let mut cube = Cube::new(width, height);
    let mut continents = seed_continents(rng, width, continent_count);
    let axis_draws = draw_pairs(rng, continent_count);
    proof {
        let origins = starting_positions(old(rng)@, width, continent_count as nat).0;
        assert forall|pixel: ContinentPixel| pixel.valid(cube.width()) implies !#[trigger] is_claimed(
            cube,
            pixel,
        ) by {
            assert(cube.at(pixel).continent_index == UNASSIGNED);
        }
        assert(claims(cube) =~= no_claims(width as int));
        assert(growth_of(cube, continents@, rng@).frontiers =~= Seq::new(
            continent_count as nat,
            |i: int| seq![origins[i]],
        ));
    }
    let ghost blank = cube;
    grow_continents(&mut cube, &mut continents, rng);
    proof {
        assert forall|pixel: ContinentPixel| pixel.valid(width as int) implies (
        #[trigger] cube.at(pixel)).height == height by {
            assert(blank.at(pixel).height == height);
        }
    }
    Plates { cube, continents, axis_draws }
}

/// The plates are determined by the state of the generator, the width and
/// the number of continents: what two generators in the same state make of
/// two cubes of the same width, with the same number of continents, is the
/// same. Every cell belongs to the same continent on both, the continents
/// start from the same cells, the pairs of numbers are the same, and the
/// generators are left in the same state.
pub proof fn lemma_plates_are_determined<H: Copy>(
    before: RngState,
    width: usize,
    count: nat,
    first: Plates<H>,
    first_after: RngState,
    second: Plates<H>,
    second_after: RngState,
)
    requires
        made_from(first, first_after, before, width, count),
        made_from(second, second_after, before, width, count),
    ensures
        first_after == second_after,
        first.axis_draws@ == second.axis_draws@,
        first.continents@.len() == second.continents@.len(),
        forall|i: int|
            0 <= i < count ==> (#[trigger] first.continents@[i]).origin
                == second.continents@[i].origin,
        forall|pixel: ContinentPixel|
            pixel.valid(width as int) ==> (#[trigger] first.cube.at(pixel)).continent_index
                == second.cube.at(pixel).continent_index,
{
    let growth = plates_from(before, width, count).2;
    assert(growth_of(first.cube, first.continents@, first_after) == growth);
    assert(growth_of(second.cube, second.continents@, second_after) == growth);
    assert forall|pixel: ContinentPixel| pixel.valid(width as int) implies (
    #[trigger] first.cube.at(pixel)).continent_index == second.cube.at(pixel).continent_index by {
        assert(claims(first.cube)[pixel] == first.cube.at(pixel).continent_index);
        assert(claims(second.cube)[pixel] == second.cube.at(pixel).continent_index);
    }
}

} // verus!
