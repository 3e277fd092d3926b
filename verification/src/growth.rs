//! Growing the continents until the cube is covered.

use vstd::prelude::*;
use crate::continent::{
    all_valid,
    expand,
    freshly_seeded,
    in_a_frontier,
    is_claimed,
    lemma_linear_injective,
    neighbour_pixel,
    same_heights,
    searched,
    claims,
    turn_outcome,
    Continent,
};
use crate::grid::{cell_count, lemma_linear_index, ContinentPixel, Cube, UNASSIGNED};
use crate::region::{
    contiguous,
    frontiers_rooted,
    lemma_turn_keeps_contiguous,
    lemma_turn_keeps_rooted,
};
use crate::rng::{Rng, RngState};
use crate::side::Side;
use crate::topology::{
    lemma_neighbour_in_face,
    lemma_neighbour_symmetric,
    neighbour,
    Edge,
};

verus! {

/// Every frontier holds cells of the cube only.
pub open spec fn frontiers_valid(continents: Seq<Continent>, width: int) -> bool {
    forall|i: int|
        0 <= i < continents.len() ==> all_valid(
            (#[trigger] continents[i]).discovered_pixels@,
            width,
        )
}

/// Every frontier is empty.
pub open spec fn frontiers_empty(continents: Seq<Continent>) -> bool {
    forall|i: int|
        0 <= i < continents.len() ==> (#[trigger] continents[i]).discovered_pixels@.len() == 0
}

/// No cell belongs to a continent.
pub open spec fn unclaimed<H: Copy>(cube: Cube<H>) -> bool {
    forall|pixel: ContinentPixel| pixel.valid(cube.width()) ==> !#[trigger] is_claimed(cube, pixel)
}

/// Every cell belongs to one of the continents `0 .. count`.
pub open spec fn covered<H: Copy>(cube: Cube<H>, count: int) -> bool {
    forall|pixel: ContinentPixel|
        pixel.valid(cube.width()) ==> (#[trigger] cube.at(pixel)).continent_index < count
}

/// Every cell belongs to no continent or to one of the continents `0 .. count`.
pub open spec fn claims_below<H: Copy>(cube: Cube<H>, count: int) -> bool {
    forall|pixel: ContinentPixel|
        pixel.valid(cube.width()) ==> (#[trigger] cube.at(pixel)).continent_index == UNASSIGNED
            || cube.at(pixel).continent_index < count
}

/// Nothing next to a continent is forgotten: each neighbour of a claimed cell
/// is claimed too, or waits in a frontier.
pub open spec fn frontier_complete<H: Copy>(cube: Cube<H>, continents: Seq<Continent>) -> bool {
    forall|pixel: ContinentPixel, edge: Edge|
        pixel.valid(cube.width()) && is_claimed(cube, pixel) ==> is_claimed(
            cube,
            #[trigger] neighbour_pixel(pixel, edge, cube.width()),
        ) || in_a_frontier(continents, neighbour_pixel(pixel, edge, cube.width()))
}

/// The claimed cells are closed under steps: each neighbour of a claimed cell
/// is claimed.
pub open spec fn closed_under_steps<H: Copy>(cube: Cube<H>) -> bool {
    forall|pixel: ContinentPixel, edge: Edge|
        pixel.valid(cube.width()) && is_claimed(cube, pixel) ==> is_claimed(
            cube,
            #[trigger] neighbour_pixel(pixel, edge, cube.width()),
        )
}

/// `tally` is the set of the linear positions of the claimed cells.
pub open spec fn tallied<H: Copy>(cube: Cube<H>, tally: Set<int>) -> bool {
    &&& tally.finite()
    &&& forall|i: int| tally.contains(i) ==> 0 <= i < cell_count(cube.width())
    &&& forall|pixel: ContinentPixel|
        pixel.valid(cube.width()) ==> (is_claimed(cube, pixel) <==> tally.contains(
            #[trigger] pixel.linear(cube.width()),
        ))
}

/// Continent `i` holds the cell it started from.
pub open spec fn owns_origin<H: Copy>(cube: Cube<H>, continents: Seq<Continent>, i: int) -> bool {
    cube.at(continents[i].origin).continent_index == i
}

/// Continent `i` has not had a turn yet: its origin is free and is all that
/// its frontier holds.
pub open spec fn awaits_origin<H: Copy>(
    cube: Cube<H>,
    continents: Seq<Continent>,
    i: int,
) -> bool {
    !is_claimed(cube, continents[i].origin) && continents[i].discovered_pixels@
        == seq![continents[i].origin]
}

/// The continents have valid origins, no two the same.
pub open spec fn origins_apart(continents: Seq<Continent>, width: int) -> bool {
    &&& forall|i: int| 0 <= i < continents.len() ==> (#[trigger] continents[i]).origin.valid(width)
    &&& forall|i: int, j: int|
        0 <= i < j < continents.len() ==> continents[i].origin != continents[j].origin
}

/// Where the continents stand with their origins while, in the first round,
/// the continents before `turn` have had their turn and the others have not;
/// after the first round every continent holds its origin.
pub open spec fn origins_settled<H: Copy>(
    cube: Cube<H>,
    continents: Seq<Continent>,
    first_round: bool,
    turn: int,
) -> bool {
    &&& forall|i: int|
        0 <= i < continents.len() && first_round && i >= turn ==> #[trigger] awaits_origin(
            cube,
            continents,
            i,
        )
    &&& forall|i: int|
        0 <= i < continents.len() && !(first_round && i >= turn) ==> #[trigger] owns_origin(
            cube,
            continents,
            i,
        )
}

/// What a turn leaves of the continents: only the frontier of the continent
/// whose turn it was may have changed.
pub open spec fn only_frontier_changed(
    before: Seq<Continent>,
    after: Seq<Continent>,
    turn: int,
) -> bool {
    &&& after.len() == before.len()
    &&& forall|i: int| 0 <= i < before.len() && i != turn ==> #[trigger] after[i] == before[i]
    &&& after[turn].origin == before[turn].origin
}

/// How far a cell is from the corner cell `(0, 0)` of the left face, counted
/// so that every other cell has a neighbour that is nearer.
pub open spec fn way_home(pixel: ContinentPixel, width: int) -> int {
    let faces: int = match pixel.side {
        Side::L => 0,
        Side::B => 1,
        Side::R => 2,
        Side::F => 3,
        Side::U => 1,
        Side::D => 1,
    };
    faces * (2 * width) + pixel.ix + pixel.iy
}

/// The direction in which a cell has a neighbour nearer to the corner cell
/// of the left face.
pub open spec fn homeward(pixel: ContinentPixel) -> Edge {
    if pixel.ix == 0 && pixel.iy > 0 {
        Edge::Up
    } else {
        Edge::Left
    }
}

/// The corner cell `(0, 0)` of the left face.
pub open spec fn home() -> ContinentPixel {
    ContinentPixel { side: Side::L, ix: 0, iy: 0 }
}

/// The neighbour of a cell is a cell.
pub proof fn lemma_neighbour_valid(pixel: ContinentPixel, edge: Edge, width: int)
    requires
        pixel.valid(width),
        width <= usize::MAX,
    ensures
        neighbour_pixel(pixel, edge, width).valid(width),
        neighbour_pixel(pixel, edge, width).ix == neighbour(
            pixel.side,
            pixel.ix as int,
            pixel.iy as int,
            edge,
            width,
        ).x,
        neighbour_pixel(pixel, edge, width).iy == neighbour(
            pixel.side,
            pixel.ix as int,
            pixel.iy as int,
            edge,
            width,
        ).y,
{
    lemma_neighbour_in_face(pixel.side, pixel.ix as int, pixel.iy as int, edge, width);
}

/// Every cell but the corner cell of the left face has a neighbour that is
/// nearer to that corner.
pub proof fn lemma_homeward_is_nearer(pixel: ContinentPixel, width: int)
    requires
        pixel.valid(width),
        width <= usize::MAX,
        pixel != home(),
    ensures
        neighbour_pixel(pixel, homeward(pixel), width).valid(width),
        0 <= way_home(neighbour_pixel(pixel, homeward(pixel), width), width) < way_home(
            pixel,
            width,
        ),
{
    lemma_neighbour_valid(pixel, homeward(pixel), width);
}

/// A cell is a neighbour of each of its neighbours.
pub proof fn lemma_step_back(pixel: ContinentPixel, edge: Edge, width: int) -> (back: Edge)
    requires
        pixel.valid(width),
        width <= usize::MAX,
    ensures
        neighbour_pixel(neighbour_pixel(pixel, edge, width), back, width) == pixel,
{
    lemma_neighbour_symmetric(pixel.side, pixel.ix as int, pixel.iy as int, edge, width);
    lemma_neighbour_valid(pixel, edge, width);
    let out = neighbour(pixel.side, pixel.ix as int, pixel.iy as int, edge, width);
    let back = choose|back: Edge|
        {
            let to = #[trigger] neighbour(out.side, out.x, out.y, back, width);
            to.side == pixel.side && to.x == pixel.ix && to.y == pixel.iy
        };
    back
}

/// If the claimed cells are closed under steps and there is one, the corner
/// cell of the left face is claimed.
pub proof fn lemma_home_is_reached<H: Copy>(cube: Cube<H>, start: ContinentPixel)
    requires
        closed_under_steps(cube),
        start.valid(cube.width()),
        is_claimed(cube, start),
    ensures
        is_claimed(cube, home()),
    decreases way_home(start, cube.width()),
{
    if start != home() {
        lemma_homeward_is_nearer(start, cube.width());
        let next = neighbour_pixel(start, homeward(start), cube.width());
        lemma_home_is_reached(cube, next);
    }
}

/// If the claimed cells are closed under steps and the corner cell of the
/// left face is claimed, every cell is claimed.
pub proof fn lemma_reached_from_home<H: Copy>(cube: Cube<H>, pixel: ContinentPixel)
    requires
        closed_under_steps(cube),
        is_claimed(cube, home()),
        pixel.valid(cube.width()),
    ensures
        is_claimed(cube, pixel),
    decreases way_home(pixel, cube.width()),
{
    if pixel != home() {
        let width = cube.width();
        lemma_homeward_is_nearer(pixel, width);
        let next = neighbour_pixel(pixel, homeward(pixel), width);
        lemma_reached_from_home(cube, next);
        let back = lemma_step_back(pixel, homeward(pixel), width);
        assert(is_claimed(cube, neighbour_pixel(next, back, width)));
    }
}

/// The surface of the cube is connected: a set of cells that is not empty
/// and holds every neighbour of each of its cells holds every cell.
pub proof fn lemma_flood_covers<H: Copy>(cube: Cube<H>, start: ContinentPixel)
    requires
        closed_under_steps(cube),
        start.valid(cube.width()),
        is_claimed(cube, start),
    ensures
        forall|pixel: ContinentPixel| pixel.valid(cube.width()) ==> is_claimed(cube, pixel),
{
    lemma_home_is_reached(cube, start);
    assert forall|pixel: ContinentPixel| pixel.valid(cube.width()) implies is_claimed(
        cube,
        pixel,
    ) by {
        lemma_reached_from_home(cube, pixel);
    }
}

/// Every position below the number of cells is the position of a cell.
pub proof fn lemma_pixel_at(place: int, width: int) -> (pixel: ContinentPixel)
    requires
        0 <= place < cell_count(width),
        0 <= width <= usize::MAX,
    ensures
        pixel.valid(width),
        pixel.linear(width) == place,
{
    let area = width * width;
    assert(width > 0 && area > 0) by (nonlinear_arith)
        requires
            0 <= place < 6 * (width * width),
            width >= 0,
            area == width * width,
    ;
    let face = place / area;
    let rest = place % area;
    assert(0 <= face < 6 && place == face * area + rest && 0 <= rest < area) by (nonlinear_arith)
        requires
            0 <= place < 6 * area,
            area > 0,
            face == place / area,
            rest == place % area,
    ;
    let y = rest / width;
    let x = rest % width;
    assert(0 <= y < width && rest == x + y * width && 0 <= x < width) by (nonlinear_arith)
        requires
            0 <= rest < width * width,
            width > 0,
            y == rest / width,
            x == rest % width,
    ;
    crate::side::lemma_ordinal_roundtrip(Side::L, face);
    ContinentPixel { side: Side::at(face), ix: x as usize, iy: y as usize }
}

/// A turn keeps the frontiers complete.
pub proof fn lemma_turn_keeps_complete<H: Copy>(
    before: Cube<H>,
    after: Cube<H>,
    continents_before: Seq<Continent>,
    continents_after: Seq<Continent>,
    turn: usize,
    claimed: Option<ContinentPixel>,
)
    requires
        turn < continents_before.len(),
        turn != UNASSIGNED,
        only_frontier_changed(continents_before, continents_after, turn as int),
        turn_outcome(
            before,
            after,
            continents_before[turn as int].discovered_pixels@,
            continents_after[turn as int].discovered_pixels@,
            turn,
            claimed,
        ),
        frontier_complete(before, continents_before),
    ensures
        frontier_complete(after, continents_after),
{
    let width = before.width();
    let frontier_before = continents_before[turn as int].discovered_pixels@;
    let frontier_after = continents_after[turn as int].discovered_pixels@;
    assert forall|pixel: ContinentPixel, edge: Edge|
        pixel.valid(after.width()) && is_claimed(after, pixel) implies is_claimed(
        after,
        #[trigger] neighbour_pixel(pixel, edge, after.width()),
    ) || in_a_frontier(continents_after, neighbour_pixel(pixel, edge, after.width())) by {
        let next = neighbour_pixel(pixel, edge, width);
        lemma_neighbour_valid(pixel, edge, width);
        if claimed == Some(pixel) {
            let n = frontier_after.len();
            let k = match edge {
                Edge::Left => n - 4,
                Edge::Right => n - 3,
                Edge::Up => n - 2,
                Edge::Down => n - 1,
            };
            assert(continents_after[turn as int].discovered_pixels@[k] == next);
        } else {
            assert(after.at(pixel) == before.at(pixel));
            assert(is_claimed(before, pixel));
            if is_claimed(before, next) {
                if claimed != Some(next) {
                    assert(after.at(next) == before.at(next));
                }
            } else {
                assert(in_a_frontier(continents_before, next));
                let (i, k) = choose|i: int, k: int|
                    0 <= i < continents_before.len() && 0 <= k
                        < continents_before[i].discovered_pixels@.len()
                        && #[trigger] continents_before[i].discovered_pixels@[k] == next;
                if i != turn {
                    assert(continents_after[i] == continents_before[i]);
                    assert(continents_after[i].discovered_pixels@[k] == next);
                } else {
                    assert(frontier_before[k] == next);
                    if !is_claimed(after, next) {
                        assert(frontier_after.contains(frontier_before[k]));
                        let m = choose|m: int| 0 <= m < frontier_after.len() && frontier_after[m] == next;
                        assert(continents_after[turn as int].discovered_pixels@[m] == next);
                    }
                }
            }
        }
    }
}

/// A turn that claims a cell adds the cell's position to the tally, and the
/// tally never holds more positions than the cube has cells.
pub proof fn lemma_turn_keeps_tally<H: Copy>(
    before: Cube<H>,
    after: Cube<H>,
    frontier_before: Seq<ContinentPixel>,
    frontier_after: Seq<ContinentPixel>,
    turn: usize,
    claimed: Option<ContinentPixel>,
    tally: Set<int>,
) -> (counted: Set<int>)
    requires
        turn != UNASSIGNED,
        turn_outcome(before, after, frontier_before, frontier_after, turn, claimed),
        tallied(before, tally),
    ensures
        tallied(after, counted),
        counted.len() <= cell_count(before.width()),
        claimed.is_some() ==> counted.len() == tally.len() + 1,
        claimed.is_none() ==> counted == tally,
{
    let width = before.width();
    let total = cell_count(width);
    assert(total >= 0) by (nonlinear_arith)
        requires
            total == 6 * (width * width),
    ;
    let counted = match claimed {
        Some(found) => tally.insert(found.linear(width)),
        None => tally,
    };
    match claimed {
        Some(found) => {
            lemma_linear_index(found.side, found.ix as int, found.iy as int, width);
            assert forall|pixel: ContinentPixel| pixel.valid(after.width()) implies (is_claimed(
                after,
                pixel,
            ) <==> counted.contains(#[trigger] pixel.linear(after.width()))) by {
                if pixel != found {
                    assert(after.at(pixel) == before.at(pixel));
                    if pixel.linear(width) == found.linear(width) {
                        lemma_linear_injective(pixel, found, width);
                    }
                }
            }
        },
        None => {
            assert forall|pixel: ContinentPixel| pixel.valid(after.width()) implies (is_claimed(
                after,
                pixel,
            ) <==> counted.contains(#[trigger] pixel.linear(after.width()))) by {
                assert(after.at(pixel) == before.at(pixel));
            }
        },
    }
    vstd::set_lib::lemma_int_range(0, total);
    assert(counted.subset_of(vstd::set_lib::set_int_range(0, total)));
    vstd::set_lib::lemma_len_subset(counted, vstd::set_lib::set_int_range(0, total));
    counted
}

/// A turn settles the origin of the continent whose turn it is, and leaves
/// the other origins as they are. In the first round every turn claims a cell.
pub proof fn lemma_turn_settles_origin<H: Copy>(
    before: Cube<H>,
    after: Cube<H>,
    continents_before: Seq<Continent>,
    continents_after: Seq<Continent>,
    turn: usize,
    claimed: Option<ContinentPixel>,
    first_round: bool,
)
    requires
        turn < continents_before.len() <= usize::MAX,
        only_frontier_changed(continents_before, continents_after, turn as int),
        turn_outcome(
            before,
            after,
            continents_before[turn as int].discovered_pixels@,
            continents_after[turn as int].discovered_pixels@,
            turn,
            claimed,
        ),
        origins_apart(continents_before, before.width()),
        origins_settled(before, continents_before, first_round, turn as int),
    ensures
        origins_settled(after, continents_after, first_round, turn + 1),
        origins_apart(continents_after, before.width()),
        first_round ==> claimed.is_some(),
{
    let width = before.width();
    let frontier_before = continents_before[turn as int].discovered_pixels@;
    let frontier_after = continents_after[turn as int].discovered_pixels@;
    let mine = continents_before[turn as int].origin;
    assert(mine.valid(width));
    if first_round {
        assert(awaits_origin(before, continents_before, turn as int));
        assert(frontier_before[0] == mine);
        if claimed.is_none() {
            assert(frontier_after.contains(frontier_before[0]) || is_claimed(after, mine));
            assert(after.at(mine) == before.at(mine));
            assert(false);
        }
        let found = claimed.unwrap();
        let k = choose|k: int| 0 <= k < frontier_before.len() && frontier_before[k] == found;
        assert(found == mine);
    }
    assert forall|i: int|
        0 <= i < continents_after.len() && first_round && i >= turn + 1 implies #[trigger] awaits_origin(
        after,
        continents_after,
        i,
    ) by {
        let origin = continents_before[i].origin;
        assert(origin.valid(width));
        assert(awaits_origin(before, continents_before, i));
        assert(continents_after[i] == continents_before[i]);
        assert(origin != mine);
        assert(after.at(origin) == before.at(origin));
    }
    assert forall|i: int|
        0 <= i < continents_after.len() && !(first_round && i >= turn + 1) implies #[trigger] owns_origin(
        after,
        continents_after,
        i,
    ) by {
        let origin = continents_before[i].origin;
        assert(origin.valid(width));
        assert(continents_after[i].origin == origin);
        if !(i == turn && first_round) {
            assert(owns_origin(before, continents_before, i));
            assert(is_claimed(before, origin));
            assert(after.at(origin) == before.at(origin));
        }
    }
    assert forall|i: int| 0 <= i < continents_after.len() implies (
    #[trigger] continents_after[i]).origin.valid(width) by {
        assert(continents_before[i].origin.valid(width));
    }
    assert forall|i: int, j: int| 0 <= i < j < continents_after.len() implies continents_after[i].origin
        != continents_after[j].origin by {
        assert(continents_after[i].origin == continents_before[i].origin);
        assert(continents_after[j].origin == continents_before[j].origin);
    }
}

/// The state of the growth as far as it matters for what comes next: which
/// continent every cell belongs to, the frontiers, and the state of the
/// random generator.
pub ghost struct Growth {
    pub claims: Map<ContinentPixel, usize>,
    pub frontiers: Seq<Seq<ContinentPixel>>,
    pub state: RngState,
}

/// The state of the growth on a given cube.
pub open spec fn growth_of<H: Copy>(
    cube: Cube<H>,
    continents: Seq<Continent>,
    state: RngState,
) -> Growth {
    Growth {
        claims: claims(cube),
        frontiers: Seq::new(continents.len(), |i: int| continents[i].discovered_pixels@),
        state,
    }
}

/// The growth after the turn of continent `turn`, and whether the turn
/// claimed a cell.
pub open spec fn after_turn(growth: Growth, turn: int, width: int) -> (Growth, bool) {
    let (claimed, frontier, state) = searched(
        growth.claims,
        growth.frontiers[turn],
        growth.state,
        width,
    );
    (
        Growth {
            claims: match claimed {
                Some(pixel) => growth.claims.insert(pixel, turn as usize),
                None => growth.claims,
            },
            frontiers: growth.frontiers.update(turn, frontier),
            state,
        },
        claimed.is_some(),
    )
}

/// The growth after the turns of the continents from `turn` on, and whether
/// one of them, or a turn before as `found` tells, claimed a cell.
pub open spec fn after_round(growth: Growth, turn: nat, found: bool, width: int) -> (Growth, bool)
    decreases growth.frontiers.len() - turn,
{
    if turn >= growth.frontiers.len() {
        (growth, found)
    } else {
        let (next, claimed) = after_turn(growth, turn as int, width);
        if next.frontiers.len() == growth.frontiers.len() {
            after_round(next, turn + 1, found || claimed, width)
        } else {
            (next, found)
        }
    }
}

/// The growth after at most `rounds` rounds: round follows round until one
/// claims no cell.
pub open spec fn grown(growth: Growth, width: int, rounds: nat) -> Growth
    decreases rounds,
{
    if rounds == 0 {
        growth
    } else {
        let (next, found) = after_round(growth, 0, false, width);
        if found {
            grown(next, width, (rounds - 1) as nat)
        } else {
            next
        }
    }
}

/// A turn of the growth is a turn of its model.
pub proof fn lemma_turn_follows_model<H: Copy>(
    before: Cube<H>,
    after: Cube<H>,
    continents_before: Seq<Continent>,
    continents_after: Seq<Continent>,
    state_before: RngState,
    state_after: RngState,
    turn: usize,
    claimed: Option<ContinentPixel>,
)
    requires
        turn < continents_before.len(),
        only_frontier_changed(continents_before, continents_after, turn as int),
        turn_outcome(
            before,
            after,
            continents_before[turn as int].discovered_pixels@,
            continents_after[turn as int].discovered_pixels@,
            turn,
            claimed,
        ),
        (claimed, continents_after[turn as int].discovered_pixels@, state_after) == searched(
            claims(before),
            continents_before[turn as int].discovered_pixels@,
            state_before,
            before.width(),
        ),
    ensures
        after_turn(growth_of(before, continents_before, state_before), turn as int, before.width())
            == (growth_of(after, continents_after, state_after), claimed.is_some()),
{
    let width = before.width();
    let old_growth = growth_of(before, continents_before, state_before);
    let new_growth = growth_of(after, continents_after, state_after);
    let modelled = after_turn(old_growth, turn as int, width).0;
    assert(old_growth.frontiers[turn as int] == continents_before[turn as int].discovered_pixels@);
    assert(modelled.frontiers =~= new_growth.frontiers) by {
        assert forall|i: int| 0 <= i < continents_before.len() implies modelled.frontiers[i]
            == new_growth.frontiers[i] by {
            if i != turn {
                assert(continents_after[i] == continents_before[i]);
            }
        }
    }
    assert(modelled.claims =~= new_growth.claims) by {
        assert forall|pixel: ContinentPixel| pixel.valid(width) implies modelled.claims[pixel]
            == new_growth.claims[pixel] by {
            if claimed != Some(pixel) {
                assert(after.at(pixel) == before.at(pixel));
            }
        }
    }
}

/// Grows the continents until none can claim another cell.
///
/// The continents take turns, in their order, round after round. In its
/// turn a continent claims one free cell of its frontier, picked at random
/// (see [`expand`]). Growth ends with the first round in which no continent
/// claims a cell. The number of cells claimed is returned.
///
/// Afterwards every continent holds the cell it started from, all
/// frontiers are empty, and, if there is at least one continent, every cell
/// of the cube belongs to one of them. Every continent is in one piece:
/// each of its cells is joined to the cell it started from by cells of the
/// same continent. Heights are left untouched.
#[verifier::rlimit(40)]
pub fn grow_continents<H: Copy>(
    cube: &mut Cube<H>,
    continents: &mut Vec<Continent>,
    rng: &mut Rng,
) -> (discovered_pixel_count: usize)
    requires
        old(cube).wf(),
        cell_count(old(cube).width()) <= usize::MAX,
        unclaimed(*old(cube)),
        freshly_seeded(old(continents)@, old(cube).width()),
    ensures
        final(cube).wf(),
        final(cube).width() == old(cube).width(),
        same_heights(*old(cube), *final(cube)),
        final(continents)@.len() == old(continents)@.len(),
        forall|i: int|
            0 <= i < old(continents)@.len() ==> (#[trigger] final(continents)@[i]).origin == old(
                continents,
            )@[i].origin,
        frontiers_empty(final(continents)@),
        forall|i: int|
            0 <= i < old(continents)@.len() ==> #[trigger] owns_origin(
                *final(cube),
                final(continents)@,
                i,
            ),
        old(continents)@.len() > 0 ==> covered(*final(cube), old(continents)@.len() as int)
            && discovered_pixel_count == cell_count(old(cube).width()),
        old(continents)@.len() == 0 ==> unclaimed(*final(cube)) && discovered_pixel_count == 0,
        contiguous(*final(cube), final(continents)@),
        growth_of(*final(cube), final(continents)@, final(rng)@) == grown(
            growth_of(*old(cube), old(continents)@, old(rng)@),
            old(cube).width(),
            (cell_count(old(cube).width()) + 1) as nat,
        ),
{
    let width = cube.side_width();
    let count = continents.len();
    let ghost start = growth_of(*cube, continents@, rng@);
    let ghost mut rounds_done: nat = 0;
    assert(width <= isize::MAX) by (nonlinear_arith)
        requires
            6 * (width * width) <= usize::MAX,
            usize::MAX <= 2 * isize::MAX + 1,
    ;
    let mut discovered: usize = 0;
    let ghost mut tally: Set<int> = Set::empty();
    let ghost mut first_round = true;
    let mut new_pixel_was_discovered = true;
    proof {
        assert forall|i: int| 0 <= i < continents@.len() implies #[trigger] awaits_origin(
            *cube,
            continents@,
            i,
        ) by {
            assert(continents@[i].origin.valid(width as int));
            assert(!is_claimed(*cube, continents@[i].origin));
        }
        assert forall|i: int| 0 <= i < continents@.len() implies all_valid(
            (#[trigger] continents@[i]).discovered_pixels@,
            width as int,
        ) by {
            assert(continents@[i].origin.valid(width as int));
        }
        assert forall|pixel: ContinentPixel| pixel.valid(cube.width()) implies (is_claimed(
            *cube,
            pixel,
        ) <==> tally.contains(#[trigger] pixel.linear(cube.width()))) by {
            assert(!is_claimed(*cube, pixel));
        }
        assert forall|pixel: ContinentPixel| pixel.valid(cube.width()) implies (
        #[trigger] cube.at(pixel)).continent_index == UNASSIGNED by {
            assert(!is_claimed(*cube, pixel));
        }
        assert(contiguous(*cube, continents@));
        assert(frontiers_rooted(*cube, continents@));
    }
    while new_pixel_was_discovered
        invariant
            cube.wf(),
            cube.width() == width,
            old(cube).width() == width,
            width <= isize::MAX,
            cell_count(width as int) <= usize::MAX,
            continents@.len() == count,
            count == old(continents)@.len(),
            forall|i: int|
                0 <= i < count ==> (#[trigger] continents@[i]).origin == old(continents)@[i].origin,
            origins_apart(continents@, width as int),
            frontiers_valid(continents@, width as int),
            same_heights(*old(cube), *cube),
            claims_below(*cube, count as int),
            frontier_complete(*cube, continents@),
            contiguous(*cube, continents@),
            frontiers_rooted(*cube, continents@),
            tallied(*cube, tally),
            tally.len() == discovered,
            discovered <= cell_count(width as int),
            origins_settled(*cube, continents@, first_round, 0),
            !new_pixel_was_discovered ==> frontiers_empty(continents@) && !first_round,
            first_round ==> discovered == 0,
            rounds_done <= discovered,
            grown(start, width as int, (cell_count(width as int) + 1) as nat)
                == if new_pixel_was_discovered {
                grown(
                    growth_of(*cube, continents@, rng@),
                    width as int,
                    (cell_count(width as int) + 1 - rounds_done) as nat,
                )
            } else {
                growth_of(*cube, continents@, rng@)
            },
        decreases
                cell_count(width as int) - discovered,
                if new_pixel_was_discovered {
                    1int
                } else {
                    0int
                },
    {
        new_pixel_was_discovered = false;
        let ghost at_start = discovered;
        let ghost round_start = growth_of(*cube, continents@, rng@);
        let mut turn: usize = 0;
        while turn < count
            invariant
                cube.wf(),
                cube.width() == width,
                old(cube).width() == width,
                width <= isize::MAX,
                cell_count(width as int) <= usize::MAX,
                continents@.len() == count,
                count == old(continents)@.len(),
                forall|i: int|
                    0 <= i < count ==> (#[trigger] continents@[i]).origin == old(
                        continents,
                    )@[i].origin,
                origins_apart(continents@, width as int),
                frontiers_valid(continents@, width as int),
                same_heights(*old(cube), *cube),
                claims_below(*cube, count as int),
                frontier_complete(*cube, continents@),
                contiguous(*cube, continents@),
                frontiers_rooted(*cube, continents@),
                tallied(*cube, tally),
                tally.len() == discovered,
                discovered <= cell_count(width as int),
                turn <= count,
                origins_settled(*cube, continents@, first_round, turn as int),
                at_start <= discovered,
                new_pixel_was_discovered <==> discovered > at_start,
                !new_pixel_was_discovered ==> forall|i: int|
                    0 <= i < turn ==> (#[trigger] continents@[i]).discovered_pixels@.len() == 0,
                first_round ==> discovered == turn,
                after_round(round_start, 0, false, width as int) == after_round(
                    growth_of(*cube, continents@, rng@),
                    turn as nat,
                    new_pixel_was_discovered,
                    width as int,
                ),
            decreases count - turn,
        {
            let ghost before = *cube;
            let ghost continents_before = continents@;
            let ghost state_before = rng@;
            assert(all_valid(continents@[turn as int].discovered_pixels@, width as int));
            let claimed = expand(cube, &mut continents[turn].discovered_pixels, turn, rng);
            proof {
                let after = *cube;
                let continents_after = continents@;
                assert(only_frontier_changed(continents_before, continents_after, turn as int));
                lemma_turn_keeps_complete(
                    before,
                    after,
                    continents_before,
                    continents_after,
                    turn,
                    claimed,
                );
                lemma_turn_keeps_contiguous(
                    before,
                    after,
                    continents_before,
                    continents_after,
                    turn,
                    claimed,
                );
                lemma_turn_keeps_rooted(
                    before,
                    after,
                    continents_before,
                    continents_after,
                    turn,
                    claimed,
                );
                lemma_turn_follows_model(
                    before,
                    after,
                    continents_before,
                    continents_after,
                    state_before,
                    rng@,
                    turn,
                    claimed,
                );
                assert(growth_of(before, continents_before, state_before).frontiers.len() == count);
                assert(growth_of(after, continents_after, rng@).frontiers.len() == count);
                tally =
                lemma_turn_keeps_tally(
                    before,
                    after,
                    continents_before[turn as int].discovered_pixels@,
                    continents_after[turn as int].discovered_pixels@,
                    turn,
                    claimed,
                    tally,
                );
                lemma_turn_settles_origin(
                    before,
                    after,
                    continents_before,
                    continents_after,
                    turn,
                    claimed,
                    first_round,
                );
                assert(frontiers_valid(continents_after, width as int)) by {
                    assert forall|i: int| 0 <= i < continents_after.len() implies all_valid(
                        (#[trigger] continents_after[i]).discovered_pixels@,
                        width as int,
                    ) by {
                        if i != turn {
                            assert(continents_after[i] == continents_before[i]);
                        }
                    }
                }
                assert(same_heights(*old(cube), after)) by {
                    assert forall|pixel: ContinentPixel|
                        pixel.valid(old(cube).width()) implies (#[trigger] old(cube).at(
                        pixel,
                    )).height == after.at(pixel).height by {
                        assert(old(cube).at(pixel).height == before.at(pixel).height);
                        if claimed != Some(pixel) {
                            assert(after.at(pixel) == before.at(pixel));
                        }
                    }
                }
                assert(claims_below(after, count as int)) by {
                    assert forall|pixel: ContinentPixel| pixel.valid(after.width()) implies (
                    #[trigger] after.at(pixel)).continent_index == UNASSIGNED || after.at(
                        pixel,
                    ).continent_index < count by {
                        if claimed != Some(pixel) {
                            assert(after.at(pixel) == before.at(pixel));
                        }
                    }
                }
                assert forall|i: int| 0 <= i < count implies (
                #[trigger] continents_after[i]).origin == old(continents)@[i].origin by {
                    assert(continents_before[i].origin == old(continents)@[i].origin);
                    if i != turn {
                        assert(continents_after[i] == continents_before[i]);
                    }
                }
                if claimed.is_none() && !new_pixel_was_discovered {
                    assert forall|i: int| 0 <= i < turn + 1 implies (
                    #[trigger] continents_after[i]).discovered_pixels@.len() == 0 by {
                        if i != turn {
                            assert(continents_after[i] == continents_before[i]);
                        }
                    }
                }
            }
            if claimed.is_some() {
                discovered += 1;
                new_pixel_was_discovered = true;
            }
            turn += 1;
        }
        proof {
            first_round = false;
            if new_pixel_was_discovered {
                rounds_done = rounds_done + 1;
            }
        }
    }
    proof {
        let width = width as int;
        if count > 0 {
            let start = continents@[0].origin;
            assert(owns_origin(*cube, continents@, 0));
            assert(start.valid(width));
            assert(closed_under_steps(*cube)) by {
                assert forall|pixel: ContinentPixel, edge: Edge|
                    pixel.valid(cube.width()) && is_claimed(*cube, pixel) implies is_claimed(
                    *cube,
                    #[trigger] neighbour_pixel(pixel, edge, cube.width()),
                ) by {
                    let next = neighbour_pixel(pixel, edge, cube.width());
                    if in_a_frontier(continents@, next) {
                        let (i, k) = choose|i: int, k: int|
                            0 <= i < continents@.len() && 0 <= k
                                < continents@[i].discovered_pixels@.len()
                                && #[trigger] continents@[i].discovered_pixels@[k] == next;
                        assert(continents@[i].discovered_pixels@.len() == 0);
                    }
                }
            }
            lemma_flood_covers(*cube, start);
            assert(covered(*cube, count as int)) by {
                assert forall|pixel: ContinentPixel| pixel.valid(cube.width()) implies (
                #[trigger] cube.at(pixel)).continent_index < count by {
                    assert(is_claimed(*cube, pixel));
                }
            }
            assert(vstd::set_lib::set_int_range(0, cell_count(width)).subset_of(tally)) by {
                assert forall|place: int| 0 <= place < cell_count(width) implies tally.contains(
                    place,
                ) by {
                    let pixel = lemma_pixel_at(place, width);
                    assert(is_claimed(*cube, pixel));
                    assert(tally.contains(pixel.linear(cube.width())));
                }
            }
            vstd::set_lib::lemma_int_range(0, cell_count(width));
            vstd::set_lib::lemma_len_subset(
                vstd::set_lib::set_int_range(0, cell_count(width)),
                tally,
            );
        } else {
            assert(unclaimed(*cube)) by {
                assert forall|pixel: ContinentPixel| pixel.valid(cube.width()) implies !#[trigger] is_claimed(
                    *cube,
                    pixel,
                ) by {
                    assert(cube.at(pixel).continent_index == UNASSIGNED || cube.at(
                        pixel,
                    ).continent_index < count);
                }
            }
            if discovered > 0 {
                assert(tally.len() > 0);
                let place = tally.choose();
                assert(tally.contains(place));
                let pixel = lemma_pixel_at(place, width);
                assert(is_claimed(*cube, pixel));
            }
        }
    }
    discovered
}

} // verus!
