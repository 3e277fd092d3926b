//! Continents are contiguous: every cell of a continent can be reached from
//! the cell the continent started from without leaving the continent.

use vstd::prelude::*;
use crate::continent::{all_valid, is_claimed, neighbour_pixel, turn_outcome, Continent};
use crate::grid::{ContinentPixel, Cube, UNASSIGNED};
use crate::growth::{
    frontiers_valid,
    lemma_neighbour_valid,
    lemma_step_back,
    only_frontier_changed,
};
use crate::topology::Edge;

verus! {

/// `pixel` belongs to continent `id`, and at most `steps` steps lead from it
/// to `origin` over cells of that continent.
pub open spec fn linked<H: Copy>(
    cube: Cube<H>,
    id: usize,
    origin: ContinentPixel,
    pixel: ContinentPixel,
    steps: nat,
) -> bool
    decreases steps,
{
    &&& pixel.valid(cube.width())
    &&& cube.at(pixel).continent_index == id
    &&& (pixel == origin || (steps > 0 && exists|edge: Edge|
        linked(
            cube,
            id,
            origin,
            #[trigger] neighbour_pixel(pixel, edge, cube.width()),
            (steps - 1) as nat,
        )))
}

/// `pixel` belongs to continent `id`, and a way leads from it to `origin`
/// over cells of that continent.
pub open spec fn reaches<H: Copy>(
    cube: Cube<H>,
    id: usize,
    origin: ContinentPixel,
    pixel: ContinentPixel,
) -> bool {
    exists|steps: nat| linked(cube, id, origin, pixel, steps)
}

/// Every claimed cell belongs to one of the continents and is joined to the
/// origin of its continent by cells of that continent.
pub open spec fn contiguous<H: Copy>(cube: Cube<H>, continents: Seq<Continent>) -> bool {
    forall|pixel: ContinentPixel|
        pixel.valid(cube.width()) && #[trigger] is_claimed(cube, pixel) ==> {
            let id = cube.at(pixel).continent_index;
            id < continents.len() && reaches(cube, id, continents[id as int].origin, pixel)
        }
}

/// `pixel` is the origin of continent `i` or lies next to one of its cells.
pub open spec fn rooted<H: Copy>(
    cube: Cube<H>,
    continents: Seq<Continent>,
    i: int,
    pixel: ContinentPixel,
) -> bool {
    pixel == continents[i].origin || exists|edge: Edge|
        cube.at(#[trigger] neighbour_pixel(pixel, edge, cube.width())).continent_index == i
}

/// Every cell that waits in a frontier is the origin of the continent or
/// lies next to one of its cells.
pub open spec fn frontiers_rooted<H: Copy>(cube: Cube<H>, continents: Seq<Continent>) -> bool {
    forall|i: int, k: int|
        0 <= i < continents.len() && 0 <= k < continents[i].discovered_pixels@.len() ==> rooted(
            cube,
            continents,
            i,
            #[trigger] continents[i].discovered_pixels@[k],
        )
}

/// A way over cells of a continent stays a way as long as the cells that
/// belong to a continent keep belonging to it.
pub proof fn lemma_linked_survives<H: Copy>(
    before: Cube<H>,
    after: Cube<H>,
    id: usize,
    origin: ContinentPixel,
    pixel: ContinentPixel,
    steps: nat,
)
    requires
        id != UNASSIGNED,
        after.width() == before.width(),
        forall|p: ContinentPixel|
            p.valid(before.width()) && is_claimed(before, p) ==> (#[trigger] after.at(
                p,
            )).continent_index == before.at(p).continent_index,
        linked(before, id, origin, pixel, steps),
    ensures
        linked(after, id, origin, pixel, steps),
    decreases steps,
{
    assert(is_claimed(before, pixel));
    if pixel != origin {
        let edge = choose|edge: Edge|
            linked(
                before,
                id,
                origin,
                #[trigger] neighbour_pixel(pixel, edge, before.width()),
                (steps - 1) as nat,
            );
        lemma_linked_survives(
            before,
            after,
            id,
            origin,
            neighbour_pixel(pixel, edge, before.width()),
            (steps - 1) as nat,
        );
    }
}

/// What a turn leaves of the claims: a cell that belonged to a continent
/// belongs to it as before.
pub proof fn lemma_turn_keeps_claims<H: Copy>(
    before: Cube<H>,
    after: Cube<H>,
    frontier_before: Seq<ContinentPixel>,
    frontier_after: Seq<ContinentPixel>,
    turn: usize,
    claimed: Option<ContinentPixel>,
)
    requires
        turn_outcome(before, after, frontier_before, frontier_after, turn, claimed),
    ensures
        after.width() == before.width(),
        forall|p: ContinentPixel|
            p.valid(before.width()) && is_claimed(before, p) ==> (#[trigger] after.at(
                p,
            )).continent_index == before.at(p).continent_index,
{
    assert forall|p: ContinentPixel| p.valid(before.width()) && is_claimed(before, p) implies (
    #[trigger] after.at(p)).continent_index == before.at(p).continent_index by {
        if claimed != Some(p) {
            assert(after.at(p) == before.at(p));
        }
    }
}

/// A turn keeps the continents contiguous.
pub proof fn lemma_turn_keeps_contiguous<H: Copy>(
    before: Cube<H>,
    after: Cube<H>,
    continents_before: Seq<Continent>,
    continents_after: Seq<Continent>,
    turn: usize,
    claimed: Option<ContinentPixel>,
)
    requires
        turn < continents_before.len() <= usize::MAX,
        only_frontier_changed(continents_before, continents_after, turn as int),
        turn_outcome(
            before,
            after,
            continents_before[turn as int].discovered_pixels@,
            continents_after[turn as int].discovered_pixels@,
            turn,
            claimed,
        ),
        contiguous(before, continents_before),
        frontiers_rooted(before, continents_before),
    ensures
        contiguous(after, continents_after),
{
    let width = before.width();
    let frontier_before = continents_before[turn as int].discovered_pixels@;
    let frontier_after = continents_after[turn as int].discovered_pixels@;
    lemma_turn_keeps_claims(before, after, frontier_before, frontier_after, turn, claimed);
    assert forall|pixel: ContinentPixel|
        pixel.valid(after.width()) && #[trigger] is_claimed(after, pixel) implies {
        let id = after.at(pixel).continent_index;
        id < continents_after.len() && reaches(after, id, continents_after[id as int].origin, pixel)
    } by {
        let id = after.at(pixel).continent_index;
        if claimed == Some(pixel) {
            let origin = continents_before[turn as int].origin;
            assert(continents_after[turn as int].origin == origin);
            assert(id == turn);
            let k = choose|k: int| 0 <= k < frontier_before.len() && frontier_before[k] == pixel;
            assert(rooted(before, continents_before, turn as int, frontier_before[k]));
            if pixel == origin {
                assert(linked(after, id, origin, pixel, 0));
            } else {
                let edge = choose|edge: Edge|
                    before.at(#[trigger] neighbour_pixel(pixel, edge, width)).continent_index
                        == turn;
                let root = neighbour_pixel(pixel, edge, width);
                lemma_neighbour_valid(pixel, edge, width);
                assert(is_claimed(before, root));
                assert(reaches(before, turn, origin, root));
                let steps = choose|steps: nat| linked(before, turn, origin, root, steps);
                lemma_linked_survives(before, after, turn, origin, root, steps);
                assert(linked(after, turn, origin, pixel, steps + 1));
            }
        } else {
            assert(after.at(pixel) == before.at(pixel));
            assert(is_claimed(before, pixel));
            let origin = continents_before[id as int].origin;
            if id != turn {
                assert(continents_after[id as int] == continents_before[id as int]);
            }
            assert(continents_after[id as int].origin == origin);
            assert(reaches(before, id, origin, pixel));
            let steps = choose|steps: nat| linked(before, id, origin, pixel, steps);
            lemma_linked_survives(before, after, id, origin, pixel, steps);
        }
    }
}

/// A turn keeps every waiting cell next to its continent.
pub proof fn lemma_turn_keeps_rooted<H: Copy>(
    before: Cube<H>,
    after: Cube<H>,
    continents_before: Seq<Continent>,
    continents_after: Seq<Continent>,
    turn: usize,
    claimed: Option<ContinentPixel>,
)
    requires
        turn < continents_before.len() <= usize::MAX,
        only_frontier_changed(continents_before, continents_after, turn as int),
        turn_outcome(
            before,
            after,
            continents_before[turn as int].discovered_pixels@,
            continents_after[turn as int].discovered_pixels@,
            turn,
            claimed,
        ),
        frontiers_valid(continents_before, before.width()),
        frontiers_rooted(before, continents_before),
    ensures
        frontiers_rooted(after, continents_after),
{
    let width = before.width();
    let frontier_before = continents_before[turn as int].discovered_pixels@;
    let frontier_after = continents_after[turn as int].discovered_pixels@;
    lemma_turn_keeps_claims(before, after, frontier_before, frontier_after, turn, claimed);
    assert forall|i: int, k: int|
        0 <= i < continents_after.len() && 0 <= k
            < continents_after[i].discovered_pixels@.len() implies rooted(
        after,
        continents_after,
        i,
        #[trigger] continents_after[i].discovered_pixels@[k],
    ) by {
        let q = continents_after[i].discovered_pixels@[k];
        let n = frontier_after.len();
        if i == turn && claimed.is_some() && k >= n - 4 {
            let found = claimed.unwrap();
            let edge = if k == n - 4 {
                Edge::Left
            } else if k == n - 3 {
                Edge::Right
            } else if k == n - 2 {
                Edge::Up
            } else {
                Edge::Down
            };
            assert(q == neighbour_pixel(found, edge, width));
            let back = lemma_step_back(found, edge, width);
            assert(after.at(neighbour_pixel(q, back, width)).continent_index == i);
        } else {
            // the cell waited before the turn already
            let j = if i == turn {
                assert(frontier_before.contains(q));
                choose|j: int| 0 <= j < frontier_before.len() && frontier_before[j] == q
            } else {
                assert(continents_after[i] == continents_before[i]);
                k
            };
            let waited = continents_before[i].discovered_pixels@[j];
            assert(waited == q);
            assert(rooted(before, continents_before, i, waited));
            assert(all_valid(continents_before[i].discovered_pixels@, width));
            assert(waited.valid(width));
            if i != turn {
                assert(continents_after[i] == continents_before[i]);
            }
            assert(continents_after[i].origin == continents_before[i].origin);
            if q != continents_before[i].origin {
                let edge = choose|edge: Edge|
                    before.at(#[trigger] neighbour_pixel(q, edge, width)).continent_index == i;
                let root = neighbour_pixel(q, edge, width);
                lemma_neighbour_valid(q, edge, width);
                assert(is_claimed(before, root));
                assert(after.at(root).continent_index == i);
            }
        }
    }
}

} // verus!
