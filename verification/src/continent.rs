//! Continents: where they start and how they grow over the cube.
//!
//! A continent starts at one cell. It grows by claiming, turn by turn, one
//! random cell of its frontier, the list of cells next to what it already
//! holds. Growth ends when no continent can claim another cell; by then every
//! cell of the cube belongs to a continent.

use vstd::prelude::*;
use crate::grid::{
    cell_count,
    lemma_linear_index,
    lemma_row_major,
    ContinentPixel,
    Cube,
    UNASSIGNED,
};
use crate::rng::{Rng, RngState};
use crate::side::Side;
use crate::topology::{neighbour, step, Edge};

verus! {

/// A tectonic plate while it grows.
#[derive(Debug)]
pub struct Continent {
    /// the cell the continent started from
    pub origin: ContinentPixel,
    /// the frontier: cells next to the continent that it has not looked at yet
    pub discovered_pixels: Vec<ContinentPixel>,
}

/// How often a starting position is drawn again, after it fell on a cell that
/// is already taken, before the next free cell is taken instead.
pub const MAX_REDRAWS: usize = 1024;

/// The cell one step from `pixel` in the direction of `edge`.
pub open spec fn neighbour_pixel(pixel: ContinentPixel, edge: Edge, width: int) -> ContinentPixel {
    let to = neighbour(pixel.side, pixel.ix as int, pixel.iy as int, edge, width);
    ContinentPixel { side: to.side, ix: to.x as usize, iy: to.y as usize }
}

/// No two entries of `pixels` are the same cell.
pub open spec fn all_distinct(pixels: Seq<ContinentPixel>) -> bool {
    forall|i: int, j: int| 0 <= i < j < pixels.len() ==> pixels[i] != pixels[j]
}

/// Every entry of `pixels` is a cell of the cube.
pub open spec fn all_valid(pixels: Seq<ContinentPixel>, width: int) -> bool {
    forall|i: int| 0 <= i < pixels.len() ==> (#[trigger] pixels[i]).valid(width)
}

/// The continents are as [`seed_continents`] leaves them: the frontier of
/// each holds its origin and nothing else, and no two share an origin.
pub open spec fn freshly_seeded(continents: Seq<Continent>, width: int) -> bool {
    &&& forall|i: int|
        0 <= i < continents.len() ==> (#[trigger] continents[i]).origin.valid(width)
            && continents[i].discovered_pixels@ == seq![continents[i].origin]
    &&& forall|i: int, j: int|
        0 <= i < j < continents.len() ==> continents[i].origin != continents[j].origin
}

/// The cell belongs to a continent.
pub open spec fn is_claimed<H: Copy>(cube: Cube<H>, pixel: ContinentPixel) -> bool {
    cube.at(pixel).continent_index != UNASSIGNED
}

/// `pixel` waits in the frontier of one of the continents.
pub open spec fn in_a_frontier(continents: Seq<Continent>, pixel: ContinentPixel) -> bool {
    exists|i: int, k: int|
        0 <= i < continents.len() && 0 <= k < continents[i].discovered_pixels@.len()
            && #[trigger] continents[i].discovered_pixels@[k] == pixel
}

/// Two cubes hold the same heights.
pub open spec fn same_heights<H: Copy>(a: Cube<H>, b: Cube<H>) -> bool {
    forall|pixel: ContinentPixel|
        pixel.valid(a.width()) ==> (#[trigger] a.at(pixel)).height == b.at(pixel).height
}

/// Different cells have different positions in the linear order.
pub proof fn lemma_linear_injective(a: ContinentPixel, b: ContinentPixel, width: int)
    requires
        a.valid(width),
        b.valid(width),
        a.linear(width) == b.linear(width),
    ensures
        a == b,
{
    lemma_linear_index(a.side, a.ix as int, a.iy as int, width);
    lemma_linear_index(b.side, b.ix as int, b.iy as int, width);
    lemma_row_major(a.ix as int, a.iy as int, width);
    lemma_row_major(b.ix as int, b.iy as int, width);
    crate::side::lemma_ordinal_roundtrip(a.side, 0);
    crate::side::lemma_ordinal_roundtrip(b.side, 0);
}

/// Some entry of `pixels` has position `place` in the linear order of the
/// cube.
pub open spec fn fills_place(pixels: Seq<ContinentPixel>, width: int, place: int) -> bool {
    exists|k: int| 0 <= k < pixels.len() && (#[trigger] pixels[k]).linear(width) == place
}

/// A list that holds every cell of the cube is at least as long as the cube
/// has cells.
pub proof fn lemma_pigeonhole(pixels: Seq<ContinentPixel>, width: int)
    requires
        width >= 0,
        forall|i: int| 0 <= i < cell_count(width) ==> #[trigger] fills_place(pixels, width, i),
    ensures
        pixels.len() >= cell_count(width),
{
    let total = cell_count(width);
    assert(total >= 0) by (nonlinear_arith)
        requires
            total == 6 * (width * width),
    ;
    let places = pixels.map_values(|p: ContinentPixel| p.linear(width));
    let range = vstd::set_lib::set_int_range(0, total);
    vstd::set_lib::lemma_int_range(0, total);
    vstd::seq_lib::seq_to_set_is_finite(places);
    places.lemma_cardinality_of_set();
    assert(range.subset_of(places.to_set())) by {
        assert forall|i: int| range.contains(i) implies places.to_set().contains(i) by {
            assert(fills_place(pixels, width, i));
            let k = choose|k: int| 0 <= k < pixels.len() && (#[trigger] pixels[k]).linear(width) == i;
            assert(places[k] == i);
            assert(places.contains(i));
        }
    }
    vstd::set_lib::lemma_len_subset(range, places.to_set());
}

impl Continent {
    /// A continent that holds nothing yet and has its origin as its frontier.
    pub fn new(origin: ContinentPixel) -> (continent: Continent)
        ensures
            continent.origin == origin,
            continent.discovered_pixels@ == seq![origin],
    {
        let mut discovered_pixels = Vec::new();
        discovered_pixels.push(origin);
        assert(discovered_pixels@ =~= seq![origin]);
        Continent { origin, discovered_pixels }
    }
}

/// The cell one step from `pixel` in the direction of `edge`, across the
/// seam where `pixel` lies at the border of its face.
pub fn walk(pixel: ContinentPixel, edge: Edge, width: usize) -> (next: ContinentPixel)
    requires
        width <= isize::MAX,
        pixel.valid(width as int),
    ensures
        next == neighbour_pixel(pixel, edge, width as int),
        next.valid(width as int),
{
    let to = step(pixel.side, pixel.ix, pixel.iy, edge, width);
    ContinentPixel { side: to.side, ix: to.x, iy: to.y }
}

/// Tells whether `pixel` occurs in `pixels`.
pub fn contains_pixel(pixels: &Vec<ContinentPixel>, pixel: ContinentPixel) -> (found: bool)
    ensures
        found == pixels@.contains(pixel),
{
    let mut i: usize = 0;
    while i < pixels.len()
        invariant
            i <= pixels.len(),
            forall|k: int| 0 <= k < i ==> pixels@[k] != pixel,
        decreases pixels.len() - i,
    {
        if pixels[i] == pixel {
            return true;
        }
        i += 1;
    }
    false
}

/// The cell that [`draw_pixel`] draws from a generator in the given state:
/// the first two draws give the face, the next two the column, the last two
/// the row.
pub open spec fn drawn_pixel(state: RngState, width: usize) -> ContinentPixel {
    ContinentPixel {
        side: Side::at((state.output_u64() % 6) as int),
        ix: (state.advanced_by(2).output_u64() % (width as u64)) as usize,
        iy: (state.advanced_by(4).output_u64() % (width as u64)) as usize,
    }
}

/// The cell that is settled on after drawing, and drawing again up to
/// `redraws` times while the cell drawn is in `taken`; with it the state of
/// the generator afterwards.
pub open spec fn settled(
    state: RngState,
    taken: Seq<ContinentPixel>,
    width: usize,
    redraws: nat,
) -> (ContinentPixel, RngState)
    decreases redraws,
{
    resettled(drawn_pixel(state, width), state.advanced_by(6), taken, width, redraws)
}

/// [`settled`], with the first cell drawn already.
pub open spec fn resettled(
    candidate: ContinentPixel,
    state: RngState,
    taken: Seq<ContinentPixel>,
    width: usize,
    redraws: nat,
) -> (ContinentPixel, RngState)
    decreases redraws,
{
    if redraws == 0 || !taken.contains(candidate) {
        (candidate, state)
    } else {
        resettled(
            drawn_pixel(state, width),
            state.advanced_by(6),
            taken,
            width,
            (redraws - 1) as nat,
        )
    }
}

/// `pixel` is the first cell, in the linear order of the cube, that does not
/// occur in `taken`.
pub open spec fn is_first_free(pixel: ContinentPixel, taken: Seq<ContinentPixel>, width: int) -> bool {
    &&& pixel.valid(width)
    &&& !taken.contains(pixel)
    &&& forall|other: ContinentPixel|
        other.valid(width) && other.linear(width) < pixel.linear(width) ==> taken.contains(other)
}

/// The first cell that does not occur in `taken`.
pub open spec fn first_free_of(taken: Seq<ContinentPixel>, width: int) -> ContinentPixel {
    choose|pixel: ContinentPixel| is_first_free(pixel, taken, width)
}

/// The starting position that follows the positions `taken`, drawn from a
/// generator in the given state, and the state afterwards.
pub open spec fn next_position(state: RngState, taken: Seq<ContinentPixel>, width: usize) -> (
    ContinentPixel,
    RngState,
) {
    let (candidate, next) = settled(state, taken, width, MAX_REDRAWS as nat);
    if taken.contains(candidate) {
        (first_free_of(taken, width as int), next)
    } else {
        (candidate, next)
    }
}

/// The first `count` starting positions drawn from a generator in the given
/// state, and the state afterwards.
pub open spec fn starting_positions(state: RngState, width: usize, count: nat) -> (
    Seq<ContinentPixel>,
    RngState,
)
    decreases count,
{
    if count == 0 {
        (Seq::empty(), state)
    } else {
        let (before, then) = starting_positions(state, width, (count - 1) as nat);
        let (position, next) = next_position(then, before, width);
        (before.push(position), next)
    }
}

/// There is only one first free cell.
pub proof fn lemma_first_free_unique(
    a: ContinentPixel,
    b: ContinentPixel,
    taken: Seq<ContinentPixel>,
    width: int,
)
    requires
        is_first_free(a, taken, width),
        is_first_free(b, taken, width),
    ensures
        a == b,
        first_free_of(taken, width) == a,
{
    if a.linear(width) == b.linear(width) {
        lemma_linear_injective(a, b, width);
    }
    let c = first_free_of(taken, width);
    if a.linear(width) == c.linear(width) {
        lemma_linear_injective(a, c, width);
    }
}

/// Draws a cell of the cube: first the face, then the column, then the row.
pub fn draw_pixel(rng: &mut Rng, width: usize) -> (pixel: ContinentPixel)
    requires
        width > 0,
    ensures
        pixel.valid(width as int),
        pixel == drawn_pixel(old(rng)@, width),
        final(rng)@ == old(rng)@.advanced_by(6),
{
    let side = Side::from_index(rng.next_index(6));
    let ix = rng.next_index(width);
    let iy = rng.next_index(width);
    proof {
        lemma_advanced_by_adds(old(rng)@, 2, 2);
        lemma_advanced_by_adds(old(rng)@, 4, 2);
    }
    ContinentPixel { side, ix, iy }
}

/// Drawing `a` times and then `b` times is drawing `a + b` times.
pub proof fn lemma_advanced_by_adds(state: RngState, a: nat, b: nat)
    ensures
        state.advanced_by(a).advanced_by(b) == state.advanced_by(a + b),
    decreases a,
{
    if a > 0 {
        lemma_advanced_by_adds(state.advanced(), (a - 1) as nat, b);
    }
}

/// The first cell, in the linear order of the cube, that does not occur in
/// `taken`.
pub fn first_free(taken: &Vec<ContinentPixel>, width: usize) -> (pixel: ContinentPixel)
    requires
        cell_count(width as int) <= usize::MAX,
        taken@.len() < cell_count(width as int),
        all_valid(taken@, width as int),
    ensures
        is_first_free(pixel, taken@, width as int),
        pixel == first_free_of(taken@, width as int),
{
    assert(width * width <= cell_count(width as int)) by (nonlinear_arith);
    let total = 6 * (width * width);
    let mut i: usize = 0;
    while i < total
        invariant
            total == cell_count(width as int),
            total <= usize::MAX,
            i <= total,
            all_valid(taken@, width as int),
            forall|j: int| 0 <= j < i ==> #[trigger] fills_place(taken@, width as int, j),
        decreases total - i,
    {
        let pixel = ContinentPixel::from_linear(i, width);
        if !contains_pixel(taken, pixel) {
            assert forall|other: ContinentPixel|
                other.valid(width as int) && other.linear(width as int) < pixel.linear(
                    width as int,
                ) implies taken@.contains(other) by {
                lemma_linear_index(other.side, other.ix as int, other.iy as int, width as int);
                let j = other.linear(width as int);
                assert(fills_place(taken@, width as int, j));
                let k = choose|k: int|
                    0 <= k < taken@.len() && (#[trigger] taken@[k]).linear(width as int) == j;
                lemma_linear_injective(taken@[k], other, width as int);
            }
            proof {
                lemma_first_free_unique(pixel, pixel, taken@, width as int);
            }
            return pixel;
        }
        proof {
            let k = choose|k: int| 0 <= k < taken@.len() && taken@[k] == pixel;
            assert(taken@[k].linear(width as int) == i);
            assert(fills_place(taken@, width as int, i as int));
        }
        i += 1;
    }
    proof {
        lemma_pigeonhole(taken@, width as int);
    }
    ContinentPixel { side: Side::L, ix: 0, iy: 0 }
}

/// Draws `continent_count` different cells of the cube.
///
/// Each cell is drawn uniformly from the whole surface, and drawn again when
/// it is already in the list. After [`MAX_REDRAWS`] cells in a row that were
/// all taken, the first free cell of the cube is used.
pub fn pick_starting_positions(rng: &mut Rng, width: usize, continent_count: usize) -> (positions:
    Vec<ContinentPixel>)
    requires
        cell_count(width as int) <= usize::MAX,
        continent_count <= cell_count(width as int),
    ensures
        positions@.len() == continent_count,
        all_valid(positions@, width as int),
        all_distinct(positions@),
        (positions@, final(rng)@) == starting_positions(old(rng)@, width, continent_count as nat),
{
    let mut positions: Vec<ContinentPixel> = Vec::with_capacity(continent_count);
    while positions.len() < continent_count
        invariant
            cell_count(width as int) <= usize::MAX,
            continent_count <= cell_count(width as int),
            positions@.len() <= continent_count,
            all_valid(positions@, width as int),
            all_distinct(positions@),
            (positions@, rng@) == starting_positions(old(rng)@, width, positions@.len()),
        decreases continent_count - positions@.len(),
    {
        assert(width > 0) by (nonlinear_arith)
            requires
                6 * (width * width) > 0,
        ;
        let ghost before = positions@;
        let ghost target = settled(rng@, before, width, MAX_REDRAWS as nat);
        let mut candidate = draw_pixel(rng, width);
        let mut redraws: usize = 0;
        while redraws < MAX_REDRAWS && contains_pixel(&positions, candidate)
            invariant
                width > 0,
                redraws <= MAX_REDRAWS,
                candidate.valid(width as int),
                positions@ == before,
                target == resettled(
                    candidate,
                    rng@,
                    before,
                    width,
                    (MAX_REDRAWS - redraws) as nat,
                ),
            decreases MAX_REDRAWS - redraws,
        {
            candidate = draw_pixel(rng, width);
            redraws += 1;
        }
        assert(target == (candidate, rng@));
        if contains_pixel(&positions, candidate) {
            candidate = first_free(&positions, width);
        }
        positions.push(candidate);
        assert(positions@ == before.push(candidate));
    }
    positions
}

/// Starts `continent_count` continents at different cells of the cube, drawn
/// with [`pick_starting_positions`]; continent `i` starts at the `i`-th cell
/// drawn.
pub fn seed_continents(rng: &mut Rng, width: usize, continent_count: usize) -> (continents: Vec<
    Continent,
>)
    requires
        cell_count(width as int) <= usize::MAX,
        continent_count <= cell_count(width as int),
    ensures
        continents@.len() == continent_count,
        freshly_seeded(continents@, width as int),
        final(rng)@ == starting_positions(old(rng)@, width, continent_count as nat).1,
        forall|i: int|
            0 <= i < continent_count ==> (#[trigger] continents@[i]).origin == starting_positions(
                old(rng)@,
                width,
                continent_count as nat,
            ).0[i],
{
    let positions = pick_starting_positions(rng, width, continent_count);
    let mut continents: Vec<Continent> = Vec::with_capacity(continent_count);
    let mut i: usize = 0;
    while i < positions.len()
        invariant
            i <= positions@.len(),
            continents@.len() == i,
            all_valid(positions@, width as int),
            all_distinct(positions@),
            forall|k: int|
                0 <= k < i ==> (#[trigger] continents@[k]).origin == positions@[k]
                    && continents@[k].discovered_pixels@ == seq![positions@[k]],
        decreases positions@.len() - i,
    {
        continents.push(Continent::new(positions[i]));
        i += 1;
    }
    continents
}

/// What one turn of continent `continent_index` may do to the cube and to
/// the continent's frontier.
///
/// If the turn claimed a cell, that cell was waiting in the frontier and
/// belonged to nobody; it now belongs to the continent, with its height
/// untouched, and nothing else on the cube has changed. The frontier then
/// ends with the four neighbours of the cell (left, right, up, down), and
/// holds before them only cells that it held before. If the turn claimed
/// nothing, the cube is unchanged and the frontier is empty. Either way no
/// cell is lost: what was waiting in the frontier still waits there, or
/// belongs to a continent by now.
pub open spec fn turn_outcome<H: Copy>(
    before: Cube<H>,
    after: Cube<H>,
    frontier_before: Seq<ContinentPixel>,
    frontier_after: Seq<ContinentPixel>,
    continent_index: usize,
    claimed: Option<ContinentPixel>,
) -> bool {
    let width = before.width();
    &&& after.wf()
    &&& after.width() == width
    &&& all_valid(frontier_after, width)
    &&& forall|k: int|
        0 <= k < frontier_before.len() ==> frontier_after.contains(#[trigger] frontier_before[k])
            || is_claimed(after, frontier_before[k])
    &&& match claimed {
        None => {
            &&& frontier_after.len() == 0
            &&& forall|pixel: ContinentPixel|
                pixel.valid(width) ==> #[trigger] after.at(pixel) == before.at(pixel)
        },
        Some(found) => {
            let n = frontier_after.len();
            &&& found.valid(width)
            &&& frontier_before.contains(found)
            &&& !is_claimed(before, found)
            &&& after.at(found).continent_index == continent_index
            &&& after.at(found).height == before.at(found).height
            &&& forall|pixel: ContinentPixel|
                pixel.valid(width) && pixel != found ==> #[trigger] after.at(pixel) == before.at(
                    pixel,
                )
            &&& n >= 4
            &&& frontier_after[n - 4] == neighbour_pixel(found, Edge::Left, width)
            &&& frontier_after[n - 3] == neighbour_pixel(found, Edge::Right, width)
            &&& frontier_after[n - 2] == neighbour_pixel(found, Edge::Up, width)
            &&& frontier_after[n - 1] == neighbour_pixel(found, Edge::Down, width)
            &&& forall|k: int|
                0 <= k < n - 4 ==> frontier_before.contains(#[trigger] frontier_after[k])
        },
    }
}

/// Which continent every cell of the cube belongs to.
pub open spec fn claims<H: Copy>(cube: Cube<H>) -> Map<ContinentPixel, usize> {
    Map::new(
        |pixel: ContinentPixel| pixel.valid(cube.width()),
        |pixel: ContinentPixel| cube.at(pixel).continent_index,
    )
}

/// The search of one turn, as it comes out for a generator in the given
/// state: the cell that is claimed, if any; the frontier afterwards; and the
/// state of the generator afterwards.
///
/// As long as the frontier is not empty, a place in it is drawn, and the cell
/// at that place is taken out by moving the last cell of the frontier to its
/// place. The first cell taken out that belongs to no continent ends the
/// search; its left, right, upper and lower neighbour are appended to the
/// frontier.
pub open spec fn searched(
    claims: Map<ContinentPixel, usize>,
    frontier: Seq<ContinentPixel>,
    state: RngState,
    width: int,
) -> (Option<ContinentPixel>, Seq<ContinentPixel>, RngState)
    decreases frontier.len(),
{
    if frontier.len() == 0 {
        (None, frontier, state)
    } else {
        let index = (state.output_u64() as int) % (frontier.len() as int);
        let candidate = frontier[index];
        let rest = frontier.update(index, frontier.last()).drop_last();
        let next = state.advanced_by(2);
        if claims[candidate] != UNASSIGNED {
            searched(claims, rest, next, width)
        } else {
            (
                Some(candidate),
                rest.push(neighbour_pixel(candidate, Edge::Left, width)).push(
                    neighbour_pixel(candidate, Edge::Right, width),
                ).push(neighbour_pixel(candidate, Edge::Up, width)).push(
                    neighbour_pixel(candidate, Edge::Down, width),
                ),
                next,
            )
        }
    }
}

/// One turn of a continent. Cells are taken out of `frontier` at random
/// until one is found that belongs to no continent yet. That cell is given
/// to continent `continent_index`, its four neighbours are added to the
/// frontier, and the cell is returned. If the frontier runs empty first,
/// nothing changes on the cube and `None` is returned.
pub fn expand<H: Copy>(
    cube: &mut Cube<H>,
    frontier: &mut Vec<ContinentPixel>,
    continent_index: usize,
    rng: &mut Rng,
) -> (claimed: Option<ContinentPixel>)
    requires
        old(cube).wf(),
        old(cube).width() <= isize::MAX,
        all_valid(old(frontier)@, old(cube).width()),
        continent_index != UNASSIGNED,
    ensures
        turn_outcome(
            *old(cube),
            *final(cube),
            old(frontier)@,
            final(frontier)@,
            continent_index,
            claimed,
        ),
        (claimed, final(frontier)@, final(rng)@) == searched(
            claims(*old(cube)),
            old(frontier)@,
            old(rng)@,
            old(cube).width(),
        ),
{
    let width = cube.side_width();
    loop
        invariant
            cube.wf(),
            cube.width() == width,
            width <= isize::MAX,
            *cube == *old(cube),
            searched(claims(*old(cube)), old(frontier)@, old(rng)@, width as int) == searched(
                claims(*cube),
                frontier@,
                rng@,
                width as int,
            ),
            continent_index != UNASSIGNED,
            all_valid(frontier@, width as int),
            all_valid(old(frontier)@, width as int),
            forall|k: int|
                0 <= k < old(frontier)@.len() ==> frontier@.contains(#[trigger] old(frontier)@[k])
                    || is_claimed(*cube, old(frontier)@[k]),
            forall|k: int| 0 <= k < frontier@.len() ==> old(frontier)@.contains(#[trigger] frontier@[k]),
        decreases frontier@.len(),
    {
        if frontier.len() == 0 {
            return None;
        }
        let ghost before = frontier@;
        let index = rng.next_index(frontier.len());
        let candidate = frontier.swap_remove(index);
        proof {
            let last = before.len() - 1;
            assert(candidate == before[index as int]);
            assert forall|k: int| 0 <= k < frontier@.len() implies before.contains(
                #[trigger] frontier@[k],
            ) by {
                if k == index {
                    assert(frontier@[k] == before[last]);
                } else {
                    assert(frontier@[k] == before[k]);
                }
            }
            assert forall|k: int| 0 <= k < before.len() && before[k] != candidate implies frontier@.contains(
                #[trigger] before[k],
            ) by {
                if k == last {
                    assert(frontier@[index as int] == before[k]);
                } else {
                    assert(frontier@[k] == before[k]);
                }
            }
            assert(all_valid(frontier@, width as int)) by {
                assert forall|k: int| 0 <= k < frontier@.len() implies (#[trigger] frontier@[k]).valid(
                    width as int,
                ) by {
                    let j = choose|j: int| 0 <= j < before.len() && before[j] == frontier@[k];
                    assert(before[j].valid(width as int));
                }
            }
            assert(before.contains(candidate));
            let j = choose|j: int| 0 <= j < old(frontier)@.len() && old(frontier)@[j] == candidate;
            assert(old(frontier)@[j] == candidate);
        }
        let mut h = cube.get(candidate.side, candidate.ix, candidate.iy);
        if h.continent_index == UNASSIGNED {
            h.continent_index = continent_index;
            cube.set(candidate.side, candidate.ix, candidate.iy, h);
            let ghost rest = frontier@;
            frontier.push(walk(candidate, Edge::Left, width));
            frontier.push(walk(candidate, Edge::Right, width));
            frontier.push(walk(candidate, Edge::Up, width));
            frontier.push(walk(candidate, Edge::Down, width));
            proof {
                assert forall|k: int| 0 <= k < old(frontier)@.len() implies frontier@.contains(
                    #[trigger] old(frontier)@[k],
                ) || is_claimed(*cube, old(frontier)@[k]) by {
                    let q = old(frontier)@[k];
                    if q == candidate {
                        assert(is_claimed(*cube, q));
                    } else if is_claimed(*old(cube), q) {
                        assert(cube.at(q) == old(cube).at(q));
                    } else {
                        assert(before.contains(q));
                        let j = choose|j: int| 0 <= j < before.len() && before[j] == q;
                        assert(rest.contains(before[j]));
                        let m = choose|m: int| 0 <= m < rest.len() && rest[m] == q;
                        assert(frontier@[m] == q);
                    }
                }
                assert forall|k: int| 0 <= k < frontier@.len() - 4 implies old(frontier)@.contains(
                    #[trigger] frontier@[k],
                ) by {
                    assert(frontier@[k] == rest[k]);
                    assert(before.contains(rest[k]));
                    let j = choose|j: int| 0 <= j < before.len() && before[j] == rest[k];
                    assert(old(frontier)@.contains(before[j]));
                }
                assert(all_valid(frontier@, width as int)) by {
                    assert forall|k: int| 0 <= k < frontier@.len() implies (
                    #[trigger] frontier@[k]).valid(width as int) by {
                        if k < rest.len() {
                            assert(frontier@[k] == rest[k]);
                        }
                    }
                }
            }
            return Some(candidate);
        }
        proof {
            assert forall|k: int| 0 <= k < old(frontier)@.len() implies frontier@.contains(
                #[trigger] old(frontier)@[k],
            ) || is_claimed(*cube, old(frontier)@[k]) by {
                let q = old(frontier)@[k];
                if q != candidate && !is_claimed(*cube, q) {
                    assert(before.contains(q));
                    let j = choose|j: int| 0 <= j < before.len() && before[j] == q;
                    assert(frontier@.contains(before[j]));
                }
            }
        }
    }
}

} // verus!
